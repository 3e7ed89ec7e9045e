//! Messages as the client reads them from room events.
use vstd::prelude::*;
use chrono::TimeZone;
use crate::json::{Json, JsonV, view_items, lemma_view_items, str_eq};
use crate::seqs::{lemma_filter_step};
use crate::types::{Message, MessageV, LocalTime, opt_view, receipt_view};

verus! {

/// Whether `s` is a Matrix user ID as `ruma_identifiers::UserId::parse` accepts it.
pub uninterp spec fn valid_user_id(s: Seq<char>) -> bool;

/// Whether `s` is a Matrix event ID as `ruma_identifiers::EventId::parse` accepts it.
pub uninterp spec fn valid_event_id(s: Seq<char>) -> bool;

/// The serialization of the URL that `url::Url::parse` reads from `s`, if it reads one.
pub uninterp spec fn parsed_url(s: Seq<char>) -> Option<Seq<char>>;

/// `ruma_identifiers::UserId::parse`: whether it accepts `s` (the identifier it
/// then holds is `s` itself). Which error it reports otherwise is not kept.
#[verifier::external_body]
pub(crate) fn check_user_id(s: &str) -> (r: bool)
    ensures
        r == valid_user_id(s@),
{
    ruma_identifiers::UserId::parse(s).is_ok()
}

/// `ruma_identifiers::EventId::parse`: whether it accepts `s` (the identifier it
/// then holds is `s` itself). Which error it reports otherwise is not kept.
#[verifier::external_body]
pub(crate) fn check_event_id(s: &str) -> (r: bool)
    ensures
        r == valid_event_id(s@),
{
    ruma_identifiers::EventId::parse(s).is_ok()
}

/// `url::Url::parse` followed by the URL's serialization.
#[verifier::external_body]
fn parse_url(s: &str) -> (r: Option<String>)
    ensures
        opt_view(r) == parsed_url(s@),
{
    match url::Url::parse(s) {
        Ok(u) => Some(u.to_string()),
        Err(_) => None,
    }
}

/// The lowercase hexadecimal MD5 digest of `data` (`format!("{:x}", md5::compute(data))`).
pub uninterp spec fn md5_hex(data: Seq<u8>) -> Seq<char>;

/// A lowercase hexadecimal digit.
pub open spec fn is_lower_hex_digit(c: char) -> bool {
    ('0' <= c && c <= '9') || ('a' <= c && c <= 'f')
}

/// `md5::compute`, written as lowercase hexadecimal: each of the digest's
/// 16 bytes as two digits (`{:02x}`), so 32 digits in all.
#[verifier::external_body]
fn md5_lower_hex(data: &[u8]) -> (r: String)
    ensures
        r@ == md5_hex(data@),
        r@.len() == 32,
        forall|i: int| 0 <= i < 32 ==> is_lower_hex_digit(#[trigger] r@[i]),
{
    format!("{:x}", md5::compute(data))
}

/// The current time (`chrono::Local::now`). Nothing is stated of the value.
#[verifier::external_body]
pub(crate) fn local_now() -> (t: LocalTime) {
    let now = chrono::Local::now();
    LocalTime { secs: now.timestamp(), nanos: now.timestamp_subsec_nanos() }
}

/// How `chrono` displays a `DateTime<Local>` (`Display`), which depends on the
/// machine's time zone; `None` where `chrono` holds no such time. Nothing is
/// stated of the text.
#[verifier::external_body]
fn local_time_text(t: &LocalTime) -> (r: Option<String>) {
    match chrono::Local.timestamp_opt(t.secs, t.nanos) {
        chrono::LocalResult::Single(d) => Some(d.to_string()),
        chrono::LocalResult::Ambiguous(d, _) => Some(d.to_string()),
        chrono::LocalResult::None => None,
    }
}

/// The transaction id of a message of room `room` with body `body` sent at the
/// time that displays as `date`.
pub open spec fn spec_txn_id(room: Seq<char>, body: Seq<char>, date: Seq<char>) -> Seq<char> {
    md5_hex(vstd::utf8::encode_utf8(room + body + date))
}

/// The transaction id for a message, given how its date displays.
pub fn txn_id_from(room: &str, body: &str, date: &str) -> (r: String)
    ensures
        r@ == spec_txn_id(room@, body@, date@),
        r@.len() == 32,
        forall|i: int| 0 <= i < 32 ==> is_lower_hex_digit(#[trigger] r@[i]),
{
    let rb = crate::text::concat(room, body);
    let all = crate::text::concat(rb.as_str(), date);
    md5_lower_hex(all.as_str().as_bytes())
}

/// An identifier that is not valid.
#[derive(PartialEq, Eq, Structural)]
pub enum IdError {
    Invalid,
}

/// The event types the message history shows.
pub open spec fn supported_type(t: Seq<char>) -> bool {
    t == "m.room.message"@ || t == "m.sticker"@
}

/// `x.as_str().map(Url::parse).and_then(Result::ok)` over the view.
pub open spec fn url_of(x: JsonV) -> Option<Seq<char>> {
    match x.str_of() {
        Some(s) => parsed_url(s),
        None => None,
    }
}

/// An event id from a JSON string, kept only when it is a valid event id.
pub open spec fn event_id_of(x: JsonV) -> Option<Seq<char>> {
    match x.str_of() {
        Some(s) => if valid_event_id(s) { Some(s) } else { None },
        None => None,
    }
}

/// The time of a server timestamp in milliseconds: its whole seconds, rounded toward zero.
pub open spec fn server_time(ms: int) -> LocalTime {
    LocalTime { secs: (if ms >= 0 { ms / 1000 } else { -((-ms) / 1000) }) as i64, nanos: 0 }
}

pub open spec fn messages_view(v: Seq<Message>) -> Seq<MessageV> {
    v.map_values(|m: Message| m@)
}

/// The messages among `evs`, in order; `None` where one of a shown type does not parse.
pub open spec fn spec_messages_of(room_id: Seq<char>, evs: Seq<JsonV>) -> Option<Seq<MessageV>>
    decreases evs.len(),
{
    if evs.len() == 0 {
        Some(Seq::empty())
    } else {
        let rest = spec_messages_of(room_id, evs.drop_first());
        if supported_type(evs[0].field("type"@).str_or(Seq::empty())) {
            match spec_parse_message(room_id, evs[0]) {
                Some(m) => match rest {
                    Some(r) => Some(seq![m] + r),
                    None => None,
                },
                None => None,
            }
        } else {
            match rest {
                Some(r) => Some(Seq::empty() + r),
                None => None,
            }
        }
    }
}

/// The message fields that the content of a `m.room.message` event sets.
pub open spec fn apply_room_message(m: MessageV, content: JsonV) -> MessageV {
    let replacing = content.field("m.relates_to"@).field("rel_type"@).str_or(Seq::empty()) == "m.replace"@;
    let m1 = if replacing {
        MessageV { replace: event_id_of(content.field("m.relates_to"@).field("event_id"@)), ..m }
    } else {
        m
    };
    let c = if replacing { content.field("m.new_content"@) } else { content };
    let mtype = c.field("msgtype"@).str_or(Seq::empty());
    let m2 = if mtype == "m.image"@ || mtype == "m.file"@ || mtype == "m.video"@ || mtype == "m.audio"@ {
        let url = url_of(c.field("url"@));
        let thumb = match url_of(c.field("info"@).field("thumbnail_url"@)) {
            Some(t) => Some(t),
            None => url,
        };
        MessageV { url, thumb, ..m1 }
    } else if mtype == "m.text"@ {
        MessageV {
            in_reply_to: event_id_of(c.field("m.relates_to"@).field("m.in_reply_to"@).field("event_id"@)),
            ..m1
        }
    } else {
        m1
    };
    MessageV {
        mtype,
        body: c.field("body"@).str_or(Seq::empty()),
        formatted_body: c.field("formatted_body"@).str_of(),
        format: c.field("format"@).str_of(),
        ..m2
    }
}

/// The message fields that the content of a `m.sticker` event sets.
pub open spec fn apply_sticker(m: MessageV, c: JsonV) -> MessageV {
    let url = url_of(c.field("url"@));
    let thumb = match url_of(c.field("info"@).field("thumbnail_url"@)) {
        Some(t) => Some(t),
        None => url,
    };
    MessageV { url, thumb, body: c.field("body"@).str_or(Seq::empty()), ..m }
}

/// The message an event of room `room_id`
/// stands for, or `None` where its sender or event id is not a valid identifier.
pub open spec fn spec_parse_message(room_id: Seq<char>, msg: JsonV) -> Option<MessageV> {
    let sender = msg.field("sender"@).str_or(Seq::empty());
    let id = msg.field("event_id"@).str_or(Seq::empty());
    let ts = match msg.field("origin_server_ts"@).i64_of() {
        Some(n) => n,
        None => 0,
    };
    let type_ = msg.field("type"@).str_or(Seq::empty());
    if !valid_user_id(sender) || !valid_event_id(id) {
        None
    } else {
        let base = MessageV {
            sender,
            mtype: type_,
            body: Seq::empty(),
            date: server_time(ts),
            room: room_id,
            thumb: None,
            url: None,
            id: Some(id),
            formatted_body: None,
            format: None,
            receipt: Seq::empty(),
            redacted: msg.field("unsigned"@).has_key("redacted_because"@),
            in_reply_to: None,
            replace: None,
        };
        let c = msg.field("content"@);
        Some(
            if type_ == "m.room.message"@ {
                apply_room_message(base, c)
            } else if type_ == "m.sticker"@ {
                apply_sticker(base, c)
            } else {
                base
            },
        )
    }
}

fn owned_or_empty(s: Option<&str>) -> (r: String)
    ensures
        s matches Some(t) ==> r@ == t@,
        s is None ==> r@ == Seq::<char>::empty(),
{
    match s {
        Some(t) => t.to_owned(),
        None => String::new(),
    }
}

fn owned(s: Option<&str>) -> (r: Option<String>)
    ensures
        opt_view(r) == (match s { Some(t) => Some(t@), None => None::<Seq<char>> }),
{
    match s {
        Some(t) => Some(t.to_owned()),
        None => None,
    }
}

fn json_field<'a>(v: Option<&'a Json>, key: &str) -> (r: Option<&'a Json>)
    ensures
        v is None ==> r is None,
        v matches Some(x) ==> (r matches Some(y) ==> y.view() == x.view().field(key@)) && (r is None
            ==> x.view().field(key@) == JsonV::Null),
{
    match v {
        Some(x) => x.get(key),
        None => None,
    }
}

/// The view of an optional JSON value, `Null` for `None`.
pub open spec fn jv(v: Option<&Json>) -> JsonV {
    match v {
        Some(x) => x.view(),
        None => JsonV::Null,
    }
}

fn json_str(v: Option<&Json>) -> (r: Option<&str>)
    ensures
        r matches Some(s) ==> jv(v).str_of() == Some(s@),
        r is None ==> jv(v).str_of() is None,
{
    match v {
        Some(x) => x.as_str(),
        None => None,
    }
}

fn url_from(v: Option<&Json>) -> (r: Option<String>)
    ensures
        opt_view(r) == url_of(jv(v)),
{
    match json_str(v) {
        Some(s) => parse_url(s),
        None => None,
    }
}

fn event_id_from(v: Option<&Json>) -> (r: Option<String>)
    ensures
        opt_view(r) == event_id_of(jv(v)),
{
    match json_str(v) {
        Some(s) => if check_event_id(s) {
            Some(s.to_owned())
        } else {
            None
        },
        None => None,
    }
}

impl Message {
    /// A message with the given fields, dated now.
    pub fn new(room: String, sender: String, body: String, mtype: String, id: Option<String>) -> (r: Message)
        ensures
            r.room@ == room@,
            r.sender@ == sender@,
            r.body@ == body@,
            r.mtype@ == mtype@,
            opt_view(r.id) == opt_view(id),
            r.thumb is None && r.url is None && r.formatted_body is None && r.format is None,
            r.receipt@.len() == 0,
            !r.redacted,
            r.in_reply_to is None && r.replace is None,
    {
        let date = local_now();
        Message {
            id,
            sender,
            mtype,
            body,
            date,
            room,
            thumb: None,
            url: None,
            formatted_body: None,
            format: None,
            receipt: Vec::new(),
            redacted: false,
            in_reply_to: None,
            replace: None,
        }
    }

    /// The md5 digest of the room id, the body and the displayed
    /// date, in hexadecimal. The date's text depends on the machine's time zone.
    pub fn get_txn_id(&self) -> (r: String)
        ensures
            exists|d: Seq<char>| r@ == spec_txn_id(self.room@, self.body@, d),
            r@.len() == 32,
            forall|i: int| 0 <= i < 32 ==> is_lower_hex_digit(#[trigger] r@[i]),
    {
        let date = match local_time_text(&self.date) {
            Some(d) => d,
            None => String::new(),
        };
        let r = txn_id_from(self.room.as_str(), self.body.as_str(), date.as_str());
        assert(r@ == spec_txn_id(self.room@, self.body@, date@));
        r
    }

    /// Replaces the receipts.
    pub fn set_receipt(&mut self, receipt: Vec<(String, i64)>)
        ensures
            final(self)@ == (MessageV { receipt: receipt_view(receipt@), ..old(self)@ }),
    {
        self.receipt = receipt;
    }

    /// The event types shown as messages.
    pub fn types() -> (r: [&'static str; 2])
        ensures
            r@[0]@ == "m.room.message"@,
            r@[1]@ == "m.sticker"@,
    {
        ["m.room.message", "m.sticker"]
    }

    /// Whether an event is of a type shown as a message.
    pub fn supported_event(ev: &Json) -> (r: bool)
        ensures
            r == supported_type(ev.view().field("type"@).str_or(Seq::empty())),
    {
        let t = owned_or_empty(ev.field_str("type"));
        str_eq(t.as_str(), "m.room.message") || str_eq(t.as_str(), "m.sticker")
    }

    /// The message a room event stands for.
    pub fn parse_room_message(room_id: &str, msg: &Json) -> (r: Result<Message, IdError>)
        ensures
            r matches Ok(m) ==> spec_parse_message(room_id@, msg.view()) == Some(m@),
            r is Err ==> spec_parse_message(room_id@, msg.view()) is None && r == Err::<Message, IdError>(
                IdError::Invalid,
            ),
    {
        let sender = owned_or_empty(msg.field_str("sender"));
        if !check_user_id(sender.as_str()) {
            return Err(IdError::Invalid);
        }
        let ms: i64 = match msg.get("origin_server_ts") {
            Some(t) => match t.as_i64() {
                Some(n) => n,
                None => 0,
            },
            None => 0,
        };
        let secs: i64 = if ms >= 0 {
            ms / 1000
        } else {
            let pos: i128 = 0i128 - (ms as i128);
            (0i128 - pos / 1000) as i64
        };
        let id = owned_or_empty(msg.field_str("event_id"));
        if !check_event_id(id.as_str()) {
            return Err(IdError::Invalid);
        }
        let type_ = owned_or_empty(msg.field_str("type"));
        let redacted = match msg.get("unsigned") {
            Some(u) => u.has_key("redacted_because"),
            None => false,
        };
        let mut message = Message {
            sender,
            mtype: type_.clone(),
            body: String::new(),
            date: LocalTime { secs, nanos: 0 },
            room: room_id.to_owned(),
            thumb: None,
            url: None,
            id: Some(id),
            formatted_body: None,
            format: None,
            receipt: Vec::new(),
            redacted,
            in_reply_to: None,
            replace: None,
        };
        proof {
            assert(receipt_view(message.receipt@) =~= Seq::<(Seq<char>, i64)>::empty());
        }
        let is_message = str_eq(type_.as_str(), "m.room.message");
        let is_sticker = str_eq(type_.as_str(), "m.sticker");
        match msg.get("content") {
            Some(c) => {
                if is_message {
                    message.parse_m_room_message(c);
                } else if is_sticker {
                    message.parse_m_sticker(c);
                }
            },
            None => {
                let null = Json::Null;
                if is_message {
                    message.parse_m_room_message(&null);
                } else if is_sticker {
                    message.parse_m_sticker(&null);
                }
            },
        }
        Ok(message)
    }

    /// The messages among `events`, in order;
    /// the first event of a shown type that does not parse makes it fail.
    pub fn from_json_events_iter(room_id: &str, events: &Vec<Json>) -> (r: Result<Vec<Message>, IdError>)
        ensures
            r matches Ok(v) ==> spec_messages_of(room_id@, view_items(events@)) == Some(messages_view(v@)),
            r is Err ==> spec_messages_of(room_id@, view_items(events@)) is None,
    {
        let ghost items = view_items(events@);
        proof {
            lemma_view_items(events@);
        }
        let mut out: Vec<Message> = Vec::new();
        let mut i: usize = 0;
        proof {
            assert(items.subrange(0, items.len() as int) =~= items);
            assert(messages_view(out@) =~= Seq::<MessageV>::empty());
        }
        while i < events.len()
            invariant
                i <= events.len(),
                items == view_items(events@),
                items.len() == events@.len(),
                forall|k: int| 0 <= k < events@.len() ==> #[trigger] items[k] == events@[k].view(),
                spec_messages_of(room_id@, items) == match spec_messages_of(
                    room_id@,
                    items.subrange(i as int, items.len() as int),
                ) {
                    Some(rest) => Some(messages_view(out@) + rest),
                    None => None,
                },
            decreases events.len() - i,
        {
            let ghost rest = items.subrange(i as int, items.len() as int);
            let ghost old_out = messages_view(out@);
            proof {
                assert(rest[0] == items[i as int]);
                assert(rest.drop_first() =~= items.subrange(i + 1, items.len() as int));
            }
            if Message::supported_event(&events[i]) {
                match Message::parse_room_message(room_id, &events[i]) {
                    Ok(m) => {
                        out.push(m);
                        proof {
                            assert(messages_view(out@) =~= old_out.push(out@[out@.len() - 1]@));
                            let tail = spec_messages_of(room_id@, items.subrange(i + 1, items.len() as int));
                            if let Some(t) = tail {
                                assert(old_out + (seq![out@[out@.len() - 1]@] + t) =~= messages_view(out@) + t);
                            }
                        }
                    },
                    Err(e) => {
                        return Err(e);
                    },
                }
            } else {
                proof {
                    let tail = spec_messages_of(room_id@, items.subrange(i + 1, items.len() as int));
                    if let Some(t) = tail {
                        assert(Seq::<MessageV>::empty() + t =~= t);
                    }
                }
            }
            i = i + 1;
        }
        proof {
            assert(items.subrange(items.len() as int, items.len() as int) =~= Seq::<JsonV>::empty());
            assert(messages_view(out@) + Seq::<MessageV>::empty() =~= messages_view(out@));
        }
        Ok(out)
    }

    fn parse_m_room_message(&mut self, content: &Json)
        ensures
            final(self)@ == apply_room_message(old(self)@, content.view()),
    {
        let relates = content.get("m.relates_to");
        let rel_type = owned_or_empty(json_str(json_field(relates, "rel_type")));
        let replacing = str_eq(rel_type.as_str(), "m.replace");
        let mut c: Option<&Json> = Some(content);
        if replacing {
            self.replace = event_id_from(json_field(relates, "event_id"));
            c = content.get("m.new_content");
        }
        let mtype = owned_or_empty(json_str(json_field(c, "msgtype")));
        let body = owned_or_empty(json_str(json_field(c, "body")));
        let formatted_body = owned(json_str(json_field(c, "formatted_body")));
        let format = owned(json_str(json_field(c, "format")));
        let mt = mtype.as_str();
        if str_eq(mt, "m.image") || str_eq(mt, "m.file") || str_eq(mt, "m.video") || str_eq(mt, "m.audio") {
            self.url = url_from(json_field(c, "url"));
            let t = url_from(json_field(json_field(c, "info"), "thumbnail_url"));
            self.thumb = match t {
                Some(t) => Some(t),
                None => self.url.clone(),
            };
        } else if str_eq(mt, "m.text") {
            self.in_reply_to = event_id_from(
                json_field(json_field(json_field(c, "m.relates_to"), "m.in_reply_to"), "event_id"),
            );
        }
        self.mtype = mtype;
        self.body = body;
        self.formatted_body = formatted_body;
        self.format = format;
    }

    fn parse_m_sticker(&mut self, c: &Json)
        ensures
            final(self)@ == apply_sticker(old(self)@, c.view()),
    {
        let sc = Some(c);
        self.url = url_from(json_field(sc, "url"));
        let t = url_from(json_field(json_field(sc, "info"), "thumbnail_url"));
        self.thumb = match t {
            Some(t) => Some(t),
            None => self.url.clone(),
        };
        self.body = owned_or_empty(json_str(json_field(sc, "body")));
    }
}

} // verus!
