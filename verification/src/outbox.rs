//! The messages the user writes: how they are composed, shown while they
//! wait, and sent one at a time.
use vstd::prelude::*;
use crate::appop::{AppModel, find_room, or_empty, room_index};
use crate::history::{RoomAction, opt_msg_view, text_or_empty};
use crate::json::str_eq;
use crate::message::{local_now, messages_view, spec_txn_id};
use crate::seqs::{first_index, lemma_first_index};
use crate::text::{chars_of, seq_contains, seq_starts_with, string_from_chars};
use crate::types::{LocalTime, Member, MemberV, Message, MessageV, Room, opt_view};

verus! {

/// How a message is sent: as a file to upload, or as a message.
pub enum SendCommand {
    AttachFile(Message),
    SendMsg(Message),
}

/// The message types sent as a file to upload.
pub open spec fn is_attachment(mtype: Seq<char>) -> bool {
    mtype == "m.image"@ || mtype == "m.file"@
}

/// What `dequeue_message` asks of the server, if anything.
pub open spec fn spec_dequeue(m: AppModel) -> Option<(bool, MessageV)> {
    if m.sending_message || m.msg_queue@.len() == 0 {
        None
    } else {
        let next = m.msg_queue@.last()@;
        Some((is_attachment(next.mtype), next))
    }
}

impl AppModel {
    /// Unless a message is being sent, the next one in the
    /// queue (the last) is sent, as a file for images and files.
    pub fn dequeue_message(&mut self) -> (r: Option<SendCommand>)
        ensures
            *final(self) == (AppModel { sending_message: final(self).sending_message, ..*old(self) }),
            final(self).sending_message == (old(self).sending_message || old(self).msg_queue@.len() > 0),
            match spec_dequeue(*old(self)) {
                Some((true, m)) => r matches Some(SendCommand::AttachFile(x)) && x@ == m,
                Some((false, m)) => r matches Some(SendCommand::SendMsg(x)) && x@ == m,
                None => r is None,
            },
    {
        if self.sending_message {
            return None;
        }
        let n = self.msg_queue.len();
        if n == 0 {
            return None;
        }
        self.sending_message = true;
        let next = self.msg_queue[n - 1].duplicate();
        if str_eq(next.mtype.as_str(), "m.image") || str_eq(next.mtype.as_str(), "m.file") {
            Some(SendCommand::AttachFile(next))
        } else {
            Some(SendCommand::SendMsg(next))
        }
    }

    /// Sends the next message whether or not one is being sent.
    pub fn force_dequeue_message(&mut self) -> (r: Option<SendCommand>)
        ensures
            *final(self) == (AppModel { sending_message: final(self).sending_message, ..*old(self) }),
            final(self).sending_message == (old(self).msg_queue@.len() > 0),
            match spec_dequeue(AppModel { sending_message: false, ..*old(self) }) {
                Some((true, m)) => r matches Some(SendCommand::AttachFile(x)) && x@ == m,
                Some((false, m)) => r matches Some(SendCommand::SendMsg(x)) && x@ == m,
                None => r is None,
            },
    {
        self.sending_message = false;
        self.dequeue_message()
    }
}

/// Files and images are uploaded, text is sent as a message: when nothing is
/// being sent and the next queued message (the last) is of type `m.file` or
/// `m.image`, dequeuing asks to attach it as a file; when it is of type
/// `m.text`, `m.emote` or `m.notice`, to send it as a message. Nothing is
/// asked while a message is being sent or the queue is empty.
pub proof fn lemma_dequeue_uploads_files(m: AppModel)
    ensures
        (m.sending_message || m.msg_queue@.len() == 0) ==> spec_dequeue(m) is None,
        !m.sending_message && m.msg_queue@.len() > 0 && (m.msg_queue@.last()@.mtype == "m.file"@
            || m.msg_queue@.last()@.mtype == "m.image"@) ==> spec_dequeue(m) == Some((true, m.msg_queue@.last()@)),
        !m.sending_message && m.msg_queue@.len() > 0 && (m.msg_queue@.last()@.mtype == "m.text"@
            || m.msg_queue@.last()@.mtype == "m.emote"@ || m.msg_queue@.last()@.mtype == "m.notice"@)
            ==> spec_dequeue(m) == Some((false, m.msg_queue@.last()@)),
{
    reveal_strlit("m.file");
    reveal_strlit("m.image");
    reveal_strlit("m.text");
    reveal_strlit("m.emote");
    reveal_strlit("m.notice");
    assert("m.text"@ != "m.image"@ && "m.text"@ != "m.file"@) by {
        assert("m.text"@[2] != "m.image"@[2]);
        assert("m.text"@[2] != "m.file"@[2]);
    }
    assert("m.emote"@ != "m.image"@ && "m.emote"@ != "m.file"@) by {
        assert("m.emote"@[2] != "m.image"@[2]);
        assert("m.emote"@.len() != "m.file"@.len());
    }
    assert("m.notice"@ != "m.image"@ && "m.notice"@ != "m.file"@) by {
        assert("m.notice"@.len() != "m.image"@.len());
        assert("m.notice"@.len() != "m.file"@.len());
    }
}

/// How a message is drawn in the history.
#[derive(PartialEq, Eq, Structural)]
pub enum RowType {
    Message,
    Emote,
    Image,
    Sticker,
    Audio,
    Video,
    File,
    /// A message that names the user.
    Mention,
}

/// A message as the history shows it.
pub struct UiMessage {
    pub id: String,
    pub sender: String,
    /// The display name of the sender in the room, when known.
    pub sender_name: Option<String>,
    pub mtype: RowType,
    pub body: String,
    pub date: LocalTime,
    pub thumb: Option<String>,
    pub url: Option<String>,
    pub formatted_body: Option<String>,
    pub format: Option<String>,
    /// The words to highlight.
    pub highlights: Vec<String>,
}

/// The row type of a message type that decides it alone.
pub open spec fn fixed_row_type(mtype: Seq<char>) -> Option<RowType> {
    if mtype == "m.emote"@ {
        Some(RowType::Emote)
    } else if mtype == "m.image"@ {
        Some(RowType::Image)
    } else if mtype == "m.sticker"@ {
        Some(RowType::Sticker)
    } else if mtype == "m.audio"@ {
        Some(RowType::Audio)
    } else if mtype == "m.video"@ {
        Some(RowType::Video)
    } else if mtype == "m.file"@ {
        Some(RowType::File)
    } else {
        None
    }
}

/// The row type of `msg` and the words to highlight in it: a text message
/// from someone else that holds the user name is a mention, highlighting the
/// user name, the user id and the message menu. `None` where the user name is
/// known but the user id is not: the client then shows nothing.
pub open spec fn spec_row(m: AppModel, msg: MessageV) -> Option<(RowType, Seq<Seq<char>>)> {
    match fixed_row_type(msg.mtype) {
        Some(t) => Some((t, Seq::empty())),
        None => match m.username {
            Some(user) => match m.uid {
                Some(u) => if msg.sender != u@ && seq_contains(msg.body, user@) {
                    Some((RowType::Mention, seq![user@, u@, "message_menu"@]))
                } else {
                    Some((RowType::Message, Seq::empty()))
                },
                None => None,
            },
            None => Some((RowType::Message, Seq::empty())),
        },
    }
}

/// The display name of `sender` among the members of a room.
pub open spec fn sender_name(members: Seq<Member>, sender: Seq<char>) -> Option<Seq<char>> {
    match first_index(members, |x: Member| x.uid@ == sender) {
        Some(k) => opt_view(members[k].alias),
        None => None,
    }
}

/// `u` shows `msg` with row type `t`, highlights `h` and sender name `name`.
pub open spec fn shows(u: UiMessage, msg: MessageV, t: RowType, h: Seq<Seq<char>>, name: Option<Seq<char>>) -> bool {
    &&& u.id@ == text_or_empty(msg.id)
    &&& u.sender@ == msg.sender
    &&& opt_view(u.sender_name) == name
    &&& u.mtype == t
    &&& u.body@ == msg.body
    &&& u.date == msg.date
    &&& opt_view(u.thumb) == msg.thumb
    &&& opt_view(u.url) == msg.url
    &&& opt_view(u.formatted_body) == msg.formatted_body
    &&& opt_view(u.format) == msg.format
    &&& u.highlights@.map_values(|s: String| s@) == h
}

/// How the history shows `msg`; `None` for a
/// message of a room the client does not know, or where `spec_row` gives none.
pub open spec fn spec_ui_message(m: AppModel, msg: MessageV) -> Option<(RowType, Seq<Seq<char>>, Option<Seq<char>>)> {
    match spec_row(m, msg) {
        Some((t, h)) => match room_index(m.rooms@, msg.room) {
            Some(i) => Some((t, h, sender_name(m.rooms@[i].members@, msg.sender))),
            None => None,
        },
        None => None,
    }
}

fn copy_opt(o: &Option<String>) -> (r: Option<String>)
    ensures
        opt_view(r) == opt_view(*o),
{
    match o {
        Some(s) => Some(s.clone()),
        None => None,
    }
}

fn name_of(members: &Vec<Member>, sender: &str) -> (r: Option<String>)
    ensures
        opt_view(r) == sender_name(members@, sender@),
{
    let ghost p = |x: Member| x.uid@ == sender@;
    let mut k: usize = 0;
    while k < members.len()
        invariant
            k <= members@.len(),
            p == (|x: Member| x.uid@ == sender@),
            forall|j: int| 0 <= j < k ==> !p(#[trigger] members@[j]),
        decreases members@.len() - k,
    {
        if str_eq(members[k].uid.as_str(), sender) {
            proof {
                lemma_first_index(members@, p, k as int);
            }
            return copy_opt(&members[k].alias);
        }
        k = k + 1;
    }
    proof {
        lemma_first_index(members@, p, members@.len() as int);
    }
    None
}

/// The position of the first message with id `id`.
fn position_of_id(q: &Vec<Message>, id: &Option<String>) -> (r: Option<usize>)
    ensures
        r matches Some(k) ==> first_index(q@, |x: Message| x@.id == opt_view(*id)) == Some(k as int) && k < q@.len(),
        r is None ==> first_index(q@, |x: Message| x@.id == opt_view(*id)) is None,
{
    let ghost p = |x: Message| x@.id == opt_view(*id);
    let mut k: usize = 0;
    while k < q.len()
        invariant
            k <= q@.len(),
            p == (|x: Message| x@.id == opt_view(*id)),
            forall|j: int| 0 <= j < k ==> !p(#[trigger] q@[j]),
        decreases q@.len() - k,
    {
        if crate::history::same_id(&q[k].id, id) {
            proof {
                lemma_first_index(q@, p, k as int);
            }
            return Some(k);
        }
        k = k + 1;
    }
    proof {
        lemma_first_index(q@, p, q@.len() as int);
    }
    None
}

impl AppModel {
    fn row_of(&self, msg: &Message) -> (r: Option<(RowType, Vec<String>)>)
        ensures
            match spec_row(*self, msg@) {
                Some((t, h)) => r matches Some((t2, h2)) && t2 == t && h2@.map_values(|s: String| s@) == h,
                None => r is None,
            },
    {
        let t = msg.mtype.as_str();
        let fixed = if str_eq(t, "m.emote") {
            Some(RowType::Emote)
        } else if str_eq(t, "m.image") {
            Some(RowType::Image)
        } else if str_eq(t, "m.sticker") {
            Some(RowType::Sticker)
        } else if str_eq(t, "m.audio") {
            Some(RowType::Audio)
        } else if str_eq(t, "m.video") {
            Some(RowType::Video)
        } else if str_eq(t, "m.file") {
            Some(RowType::File)
        } else {
            None
        };
        let mut highlights: Vec<String> = Vec::new();
        proof {
            assert(highlights@.map_values(|s: String| s@) =~= Seq::<Seq<char>>::empty());
        }
        match fixed {
            Some(rt) => Some((rt, highlights)),
            None => match &self.username {
                Some(user) => match &self.uid {
                    Some(u) => {
                        if !str_eq(msg.sender.as_str(), u.as_str()) && crate::text::contains(msg.body.as_str(), user.as_str()) {
                            highlights.push(user.clone());
                            highlights.push(u.clone());
                            highlights.push("message_menu".to_owned());
                            proof {
                                assert(highlights@.map_values(|s: String| s@) =~= seq![user@, u@, "message_menu"@]);
                            }
                            Some((RowType::Mention, highlights))
                        } else {
                            Some((RowType::Message, highlights))
                        }
                    },
                    None => None,
                },
                None => Some((RowType::Message, highlights)),
            },
        }
    }

    /// How the history shows `msg`.
    pub fn create_new_room_message(&self, msg: &Message) -> (r: Option<UiMessage>)
        ensures
            match spec_ui_message(*self, msg@) {
                Some((t, h, name)) => r matches Some(u) && shows(u, msg@, t, h, name),
                None => r is None,
            },
    {
        let (t, highlights) = match self.row_of(msg) {
            Some(x) => x,
            None => return None,
        };
        let i = match find_room(&self.rooms, msg.room.as_str()) {
            Some(i) => i,
            None => return None,
        };
        let name = name_of(&self.rooms[i].members, msg.sender.as_str());
        let id = match &msg.id {
            Some(id) => id.as_str().to_owned(),
            None => String::new(),
        };
        proof {
            assert(""@ =~= Seq::<char>::empty()) by {
                reveal_strlit("");
            }
        }
        Some(UiMessage {
            id,
            sender: msg.sender.clone(),
            sender_name: name,
            mtype: t,
            body: msg.body.clone(),
            date: LocalTime { secs: msg.date.secs, nanos: msg.date.nanos },
            thumb: copy_opt(&msg.thumb),
            url: copy_opt(&msg.url),
            formatted_body: copy_opt(&msg.formatted_body),
            format: copy_opt(&msg.format),
            highlights,
        })
    }

    /// A message about to be sent is shown, and it
    /// joins the front of the queue, where the history can show it.
    pub fn add_tmp_room_message(&mut self, msg: Message) -> (r: Option<UiMessage>)
        ensures
            *final(self) == (AppModel { msg_queue: final(self).msg_queue, ..*old(self) }),
            match spec_ui_message(*old(self), msg@) {
                Some((t, h, name)) => r matches Some(u) && shows(u, msg@, t, h, name)
                    && messages_view(final(self).msg_queue@) == seq![msg@] + messages_view(old(self).msg_queue@),
                None => r is None && final(self).msg_queue == old(self).msg_queue,
            },
    {
        let ui = self.create_new_room_message(&msg);
        if ui.is_some() {
            let ghost before = messages_view(self.msg_queue@);
            let ghost mv = msg@;
            self.msg_queue.insert(0, msg);
            proof {
                assert(messages_view(self.msg_queue@) =~= seq![mv] + before);
            }
        }
        ui
    }

    /// The uploaded file's message replaces, in the queue,
    /// the message with its id, and is shown again.
    pub fn attached_file(&mut self, msg: Message) -> (r: Option<UiMessage>)
        ensures
            *final(self) == (AppModel { msg_queue: final(self).msg_queue, ..*old(self) }),
            ({
                let q = match first_index(old(self).msg_queue@, |x: Message| x@.id == msg@.id) {
                    Some(k) => messages_view(old(self).msg_queue@.remove(k)),
                    None => messages_view(old(self).msg_queue@),
                };
                match spec_ui_message(*old(self), msg@) {
                    Some((t, h, name)) => r matches Some(u) && shows(u, msg@, t, h, name)
                        && messages_view(final(self).msg_queue@) == seq![msg@] + q,
                    None => r is None && messages_view(final(self).msg_queue@) == q,
                }
            }),
    {
        let found = position_of_id(&self.msg_queue, &msg.id);
        match found {
            Some(k) => {
                let ghost before = self.msg_queue@;
                self.msg_queue.remove(k);
                proof {
                    assert(messages_view(self.msg_queue@) =~= messages_view(before.remove(k as int)));
                }
            },
            None => {},
        }
        self.add_tmp_room_message(msg)
    }
}

/// What `comrak::markdown_to_html` with its default options gives for `text`.
pub uninterp spec fn markdown_html(text: Seq<char>) -> Seq<char>;

/// `comrak::markdown_to_html` with the default options; its result is named
/// by [`markdown_html`] and depends on the text alone.
#[verifier::external_body]
fn markdown_to_html(text: &str) -> (r: String)
    ensures
        r@ == markdown_html(text@),
{
    comrak::markdown_to_html(text, &comrak::Options::default())
}

/// `s` with every leading `p` removed (`trim_start_matches`).
pub open spec fn trim_leading(s: Seq<char>, p: Seq<char>) -> Seq<char>
    decreases s.len(),
{
    if p.len() > 0 && seq_starts_with(s, p) {
        trim_leading(s.skip(p.len() as int), p)
    } else {
        s
    }
}

/// The HTML of a paragraph without its `<p>`, `</p>` and final newline.
pub open spec fn strip_paragraph(h: Seq<char>) -> Seq<char> {
    if h.len() >= 8 && h.take(3) == "<p>"@ && h.skip(h.len() - 5) == "</p>\n"@ {
        h.subrange(3, h.len() - 5)
    } else {
        h
    }
}

/// The body and type of a message the user typed: `/me ` makes an emote.
pub open spec fn composed_body(text: Seq<char>) -> (Seq<char>, Seq<char>) {
    if seq_starts_with(text, "/me "@) {
        (trim_leading(text, "/me "@), "m.emote"@)
    } else {
        (text, "m.text"@)
    }
}

/// Markdown is rendered for a message typed as `text`: it is on, and the
/// message is no emote.
pub open spec fn markdown_applies(text: Seq<char>, md_enabled: bool) -> bool {
    composed_body(text).1 != "m.emote"@ && md_enabled
}

/// The HTML body of a message typed as `text`, given the markdown rendering
/// `html` of the text where markdown applies: the rendered paragraph, when it
/// differs from the text.
pub open spec fn composed_html(text: Seq<char>, html: Option<Seq<char>>) -> Option<Seq<char>> {
    match html {
        Some(h) => {
            let p = strip_paragraph(h);
            if p != text {
                Some(p)
            } else {
                None
            }
        },
        None => None,
    }
}

/// What markdown renders of `text`, where it applies.
pub open spec fn rendered(text: Seq<char>, md_enabled: bool) -> Option<Seq<char>> {
    if markdown_applies(text, md_enabled) {
        Some(markdown_html(text))
    } else {
        None
    }
}

/// The message the user sends by typing `text` at time `now`, given the
/// markdown rendering of the text where markdown applies, before it gets its id.
pub open spec fn composed(m: AppModel, text: Seq<char>, rendered: Option<Seq<char>>, now: LocalTime) -> MessageV {
    let html = composed_html(text, rendered);
    MessageV {
        sender: or_empty(m.uid),
        mtype: composed_body(text).1,
        body: composed_body(text).0,
        date: now,
        room: or_empty(m.active_room),
        thumb: None,
        url: None,
        id: None,
        formatted_body: html,
        format: if html is Some { Some("org.matrix.custom.html"@) } else { None },
        receipt: Seq::empty(),
        redacted: false,
        in_reply_to: None,
        replace: None,
    }
}

fn chars_eq(v: &Vec<char>, at: usize, p: &str) -> (r: bool)
    requires
        at <= v@.len(),
    ensures
        r == (at + p@.len() <= v@.len() && v@.subrange(at as int, at + p@.len()) == p@),
{
    let pc = chars_of(p);
    crate::text::run_at(v, at, &pc)
}

fn slice_chars(v: &Vec<char>, from: usize, to: usize) -> (s: String)
    requires
        from <= to <= v@.len(),
    ensures
        s@ == v@.subrange(from as int, to as int),
{
    let mut out: Vec<char> = Vec::new();
    let mut k: usize = from;
    while k < to
        invariant
            from <= k <= to <= v@.len(),
            out@ == v@.subrange(from as int, k as int),
        decreases to - k,
    {
        out.push(v[k]);
        k = k + 1;
        proof {
            assert(out@ =~= v@.subrange(from as int, k as int));
        }
    }
    string_from_chars(&out)
}

/// `text` without its leading `/me `s.
fn trim_me(text: &str) -> (r: String)
    ensures
        r@ == trim_leading(text@, "/me "@),
{
    proof {
        reveal_strlit("/me ");
    }
    let v = chars_of(text);
    let mut at: usize = 0;
    proof {
        assert(v@.skip(0) =~= v@);
    }
    let mut more = chars_eq(&v, at, "/me ");
    while more
        invariant
            at <= v@.len(),
            v@ == text@,
            "/me "@.len() == 4,
            more == (at + 4 <= v.len() && v@.subrange(at as int, at + 4) == "/me "@),
            trim_leading(text@, "/me "@) == trim_leading(v@.skip(at as int), "/me "@),
        decreases v@.len() - at,
    {
        proof {
            assert(v@.skip(at as int).take(4) =~= v@.subrange(at as int, at + 4));
            assert(v@.skip(at as int).skip(4) =~= v@.skip(at + 4));
        }
        at = at + 4;
        more = chars_eq(&v, at, "/me ");
    }
    proof {
        if v@.skip(at as int).len() >= 4 {
            assert(v@.skip(at as int).take(4) =~= v@.subrange(at as int, at + 4));
        }
    }
    slice_chars(&v, at, v.len())
}

/// The paragraph of rendered HTML without its wrapping tags.
fn strip_p(h: String) -> (r: String)
    ensures
        r@ == strip_paragraph(h@),
{
    proof {
        reveal_strlit("<p>");
        reveal_strlit("</p>\n");
    }
    let v = chars_of(h.as_str());
    let n = v.len();
    if n >= 8 && chars_eq(&v, 0, "<p>") && chars_eq(&v, n - 5, "</p>\n") {
        proof {
            assert(v@.take(3) =~= v@.subrange(0, 3));
            assert(v@.skip(n - 5) =~= v@.subrange(n - 5, n as int));
        }
        slice_chars(&v, 3, n - 5)
    } else {
        proof {
            if n >= 8 {
                assert(v@.take(3) =~= v@.subrange(0, 3));
                assert(v@.skip(n - 5) =~= v@.subrange(n - 5, n as int));
            }
        }
        h
    }
}

impl AppModel {
    /// A typed message itself: what the user sends by typing
    /// `text` at time `now`, given `html`, the markdown rendering of the text
    /// where markdown applies, before it gets its id.
    pub fn compose_message(&self, text: &str, html: Option<String>, now: LocalTime) -> (m: Message)
        requires
            html matches Some(h) ==> vstd::utf8::encode_utf8(h@).len() >= 5,
        ensures
            m@ == composed(*self, text@, opt_view(html), now),
    {
        proof {
            reveal_strlit("/me ");
        }
        let emote = crate::text::starts_with(text, "/me ");
        let (body, mtype) = if emote {
            (trim_me(text), "m.emote".to_owned())
        } else {
            (text.to_owned(), "m.text".to_owned())
        };
        let mut formatted_body: Option<String> = None;
        let mut format: Option<String> = None;
        if let Some(h) = html {
            let h = strip_p(h);
            if !str_eq(h.as_str(), text) {
                formatted_body = Some(h);
                format = Some("org.matrix.custom.html".to_owned());
            }
        }
        proof {
            assert("m.emote"@ != "m.text"@) by {
                reveal_strlit("m.emote");
                reveal_strlit("m.text");
                assert("m.emote"@.len() != "m.text"@.len());
            }
        }
        let m = Message {
            sender: match &self.uid {
                Some(u) => u.clone(),
                None => String::new(),
            },
            mtype,
            body,
            date: now,
            room: match &self.active_room {
                Some(r) => r.clone(),
                None => String::new(),
            },
            thumb: None,
            url: None,
            id: None,
            formatted_body,
            format,
            receipt: Vec::new(),
            redacted: false,
            in_reply_to: None,
            replace: None,
        };
        proof {
            assert(crate::types::receipt_view(m.receipt@) =~= Seq::<(Seq<char>, i64)>::empty());
        }
        m
    }
}

/// The part of `s` after its last `c`; all of `s` without one.
pub open spec fn after_last(s: Seq<char>, c: char) -> Seq<char>
    decreases s.len(),
{
    if s.len() == 0 {
        Seq::empty()
    } else if s.last() == c {
        Seq::empty()
    } else {
        after_last(s.drop_last(), c).push(s.last())
    }
}

/// The message type of a file by its MIME type: images the history shows, or files.
pub open spec fn attachment_type(mime: Seq<char>) -> Seq<char> {
    if mime == "image/gif"@ || mime == "image/png"@ || mime == "image/jpeg"@ || mime == "image/jpg"@ {
        "m.image"@
    } else {
        "m.file"@
    }
}

/// The message that attaches file `file`, of MIME type `mime`, at time `now`,
/// before it gets its id.
pub open spec fn attachment(m: AppModel, file: Seq<char>, mime: Seq<char>, now: LocalTime) -> MessageV {
    MessageV {
        sender: or_empty(m.uid),
        mtype: attachment_type(mime),
        body: after_last(file, '/'),
        date: now,
        room: or_empty(m.active_room),
        thumb: None,
        url: Some(file),
        id: None,
        formatted_body: None,
        format: None,
        receipt: Seq::empty(),
        redacted: false,
        in_reply_to: None,
        replace: None,
    }
}

fn file_name(file: &str) -> (r: String)
    ensures
        r@ == after_last(file@, '/'),
{
    let v = chars_of(file);
    let mut j: usize = v.len();
    proof {
        assert(v@.take(j as int) =~= v@);
        assert(v@.skip(j as int) =~= Seq::<char>::empty());
    }
    while j > 0 && v[j - 1] != '/'
        invariant
            j <= v@.len(),
            v@ == file@,
            after_last(file@, '/') == after_last(v@.take(j as int), '/') + v@.skip(j as int),
        decreases j,
    {
        proof {
            assert(v@.take(j as int).drop_last() =~= v@.take(j - 1));
            assert(v@.take(j as int).last() == v@[j - 1]);
            assert(seq![v@[j - 1]] + v@.skip(j as int) =~= v@.skip(j - 1));
            assert(after_last(v@.take(j as int), '/') == after_last(v@.take(j - 1), '/').push(v@[j - 1]));
            assert(after_last(v@.take(j - 1), '/').push(v@[j - 1]) + v@.skip(j as int)
                =~= after_last(v@.take(j - 1), '/') + v@.skip(j - 1));
        }
        j = j - 1;
    }
    proof {
        if j > 0 {
            assert(v@.take(j as int).last() == v@[j - 1]);
        }
        assert(after_last(v@.take(j as int), '/') =~= Seq::<char>::empty());
        assert(Seq::<char>::empty() + v@.skip(j as int) =~= v@.subrange(j as int, v@.len() as int));
    }
    slice_chars(&v, j, v.len())
}

/// `after` is `before` once message `m` was shown and queued and the next
/// message sent (`queue_message`), with `r` what the user interface and the
/// server are asked.
pub open spec fn queued(before: AppModel, after: AppModel, m: MessageV, r: (Option<UiMessage>, Option<SendCommand>)) -> bool {
    let shown = spec_ui_message(before, m);
    let q = if shown is Some {
        seq![m] + messages_view(before.msg_queue@)
    } else {
        messages_view(before.msg_queue@)
    };
    &&& after == (AppModel { msg_queue: after.msg_queue, sending_message: after.sending_message, ..before })
    &&& messages_view(after.msg_queue@) == q
    &&& after.sending_message == (before.sending_message || q.len() > 0)
    &&& match shown {
        Some((t, h, name)) => r.0 matches Some(u) && shows(u, m, t, h, name),
        None => r.0 is None,
    }
    &&& match (before.sending_message, q.len() > 0) {
        (false, true) => if is_attachment(q.last().mtype) {
            r.1 matches Some(SendCommand::AttachFile(x)) && x@ == q.last()
        } else {
            r.1 matches Some(SendCommand::SendMsg(x)) && x@ == q.last()
        },
        _ => r.1 is None,
    }
}

/// Every attachment is uploaded as a file: whatever its MIME type, an
/// attached file's message is an image or a file message, so when it is
/// queued and shown while nothing is being sent or waiting, the server is
/// asked to attach it, never to send it as a plain message.
pub proof fn lemma_attachments_are_uploaded(
    before: AppModel,
    after: AppModel,
    file: Seq<char>,
    mime: Seq<char>,
    now: LocalTime,
    msg: MessageV,
    r: (Option<UiMessage>, Option<SendCommand>),
)
    requires
        msg == (MessageV { id: msg.id, ..attachment(before, file, mime, now) }),
        queued(before, after, msg, r),
        !before.sending_message,
        before.msg_queue@.len() == 0,
        spec_ui_message(before, msg) is Some,
    ensures
        msg.mtype == "m.image"@ || msg.mtype == "m.file"@,
        r.1 matches Some(SendCommand::AttachFile(x)) && x@ == msg,
{
    let q = seq![msg] + messages_view(before.msg_queue@);
    assert(q.len() == 1);
    assert(q.last() == msg);
}

/// The state `m` with the history set to scroll down to new messages.
pub open spec fn scrolled(m: AppModel) -> AppModel {
    AppModel { autoscroll: true, ..m }
}

/// `after` is `before` once `text` was sent with markdown `md_enabled`,
/// `r` being what the user interface and the server are asked: the history
/// scrolls down to new messages, and the message composed at some date,
/// with the transaction id of some text of that date, was queued.
pub open spec fn sent_text(before: AppModel, after: AppModel, text: Seq<char>, md_enabled: bool, r: (Option<UiMessage>, Option<SendCommand>)) -> bool {
    exists|m: MessageV| {
        &&& #[trigger] queued(scrolled(before), after, m, r)
        &&& m == (MessageV { id: m.id, date: m.date, ..composed(before, text, rendered(text, md_enabled), m.date) })
        &&& exists|d: Seq<char>| m.id == Some(spec_txn_id(m.room, m.body, d))
    }
}

impl AppModel {
    /// An attachment's message itself: what attaches file `file`, of
    /// MIME type `mime`, at time `now`, before it gets its id.
    pub fn attachment_message(&self, file: &str, mime: &str, now: LocalTime) -> (m: Message)
        ensures
            m@ == attachment(*self, file@, mime@, now),
    {
        let image = str_eq(mime, "image/gif") || str_eq(mime, "image/png") || str_eq(mime, "image/jpeg")
            || str_eq(mime, "image/jpg");
        let m = Message {
            sender: match &self.uid {
                Some(u) => u.clone(),
                None => String::new(),
            },
            mtype: if image {
                "m.image".to_owned()
            } else {
                "m.file".to_owned()
            },
            body: file_name(file),
            date: now,
            room: match &self.active_room {
                Some(r) => r.clone(),
                None => String::new(),
            },
            thumb: None,
            url: Some(file.to_owned()),
            id: None,
            formatted_body: None,
            format: None,
            receipt: Vec::new(),
            redacted: false,
            in_reply_to: None,
            replace: None,
        };
        proof {
            assert(crate::types::receipt_view(m.receipt@) =~= Seq::<(Seq<char>, i64)>::empty());
            assert(""@ =~= Seq::<char>::empty()) by {
                reveal_strlit("");
            }
        }
        m
    }

    /// The last steps of `send_message` and `attach_message`: the message is
    /// shown and queued, and the next message is sent unless one is being sent.
    pub fn queue_message(&mut self, m: Message) -> (r: (Option<UiMessage>, Option<SendCommand>))
        ensures
            queued(*old(self), *final(self), m@, r),
    {
        let ui = self.add_tmp_room_message(m);
        let cmd = self.dequeue_message();
        proof {
            assert(messages_view(self.msg_queue@).len() == self.msg_queue@.len());
            if self.msg_queue@.len() > 0 {
                assert(messages_view(self.msg_queue@).last() == self.msg_queue@.last()@);
            }
        }
        (ui, cmd)
    }

    /// Sends `text` as a message of the active room. An empty text sends
    /// nothing. Otherwise the history scrolls down to new messages again,
    /// markdown is rendered where it applies, the message is composed (see
    /// `compose_message`), dated now, given the transaction id of its room,
    /// body and date, and queued (see `queue_message`). Nothing is sent either
    /// where the rendering is shorter than five bytes, on which the client's
    /// arithmetic overflows. The time and the way the date displays come from
    /// the machine: the queued message is the one composed at some date, with
    /// the transaction id of some date text.
    pub fn send_message(&mut self, text: String, md_enabled: bool) -> (r: Option<(Option<UiMessage>, Option<SendCommand>)>)
        ensures
            r is None <==> text@.len() == 0 || (markdown_applies(text@, md_enabled)
                && vstd::utf8::encode_utf8(markdown_html(text@)).len() < 5),
            r is None ==> *final(self) == *old(self),
            r is Some ==> final(self).autoscroll,
            r matches Some(x) ==> sent_text(*old(self), *final(self), text@, md_enabled, x),
    {
        if text.as_str().is_empty() {
            return None;
        }
        proof {
            reveal_strlit("/me ");
        }
        let applies = !crate::text::starts_with(text.as_str(), "/me ") && md_enabled;
        proof {
            assert("m.emote"@ != "m.text"@) by {
                reveal_strlit("m.emote");
                reveal_strlit("m.text");
                assert("m.emote"@.len() != "m.text"@.len());
            }
        }
        let html = if applies {
            let h = markdown_to_html(text.as_str());
            if h.as_str().as_bytes().len() < 5 {
                return None;
            }
            Some(h)
        } else {
            None
        };
        let now = local_now();
        let ghost c = composed(*old(self), text@, rendered(text@, md_enabled), now);
        let mut m = self.compose_message(text.as_str(), html, now);
        let id = m.get_txn_id();
        let ghost d = choose|d: Seq<char>| id@ == spec_txn_id(c.room, c.body, d);
        m.id = Some(id);
        let ghost mv = m@;
        self.autoscroll = true;
        let ghost before = *self;
        let r = self.queue_message(m);
        proof {
            assert(before == scrolled(*old(self)));
            assert(mv == (MessageV { id: mv.id, date: mv.date, ..c }));
            assert(mv.id == Some(spec_txn_id(mv.room, mv.body, d)));
            assert(queued(scrolled(*old(self)), *self, mv, r));
            assert(self.autoscroll);
            assert(mv.date == now);
            assert(mv == (MessageV { id: mv.id, date: mv.date, ..composed(*old(self), text@, rendered(text@, md_enabled), mv.date) }));
            assert(exists|d: Seq<char>| mv.id == Some(spec_txn_id(mv.room, mv.body, d)));
            assert(sent_text(*old(self), *self, text@, md_enabled, r));
        }
        Some(r)
    }

    /// The message that attaches file `file`, whose MIME
    /// type is `mime` (see `attachment_message`), dated now and given its
    /// transaction id, is queued (see `queue_message`) and returned.
    pub fn attach_message(&mut self, file: String, mime: &str) -> (r: (Message, Option<UiMessage>, Option<SendCommand>))
        ensures
            queued(*old(self), *final(self), r.0@, (r.1, r.2)),
            r.0@ == (MessageV { id: r.0@.id, ..attachment(*old(self), file@, mime@, r.0@.date) }),
            exists|d: Seq<char>| r.0@.id == Some(spec_txn_id(or_empty(old(self).active_room), after_last(file@, '/'), d)),
    {
        let now = local_now();
        let mut m = self.attachment_message(file.as_str(), mime, now);
        let id = m.get_txn_id();
        m.id = Some(id);
        let copy = m.duplicate();
        let (ui, cmd) = self.queue_message(m);
        (copy, ui, cmd)
    }

    /// The server took the message at the end of the queue under
    /// event id `evid`. It leaves the queue, joins its room with that id (see
    /// [`AppModel::add_new_messages`], never as a first filling), and the next message
    /// is sent.
    pub fn msg_sent(&mut self, evid: String, window_active: bool) -> (r: (Vec<RoomAction>, bool, Option<SendCommand>))
        requires
            old(self).wf(),
        ensures
            final(self).wf(),
            final(self).sending_message == (final(self).msg_queue@.len() > 0),
            match spec_dequeue(AppModel { sending_message: false, ..*final(self) }) {
                Some((true, m)) => r.2 matches Some(SendCommand::AttachFile(x)) && x@ == m,
                Some((false, m)) => r.2 matches Some(SendCommand::SendMsg(x)) && x@ == m,
                None => r.2 is None,
            },
            old(self).msg_queue@.len() == 0 ==> r.0@.len() == 0 && r.1
                && *final(self) == (AppModel { sending_message: false, ..*old(self) }),
            old(self).msg_queue@.len() > 0 ==> ({
                let sent = MessageV { id: Some(evid@), ..old(self).msg_queue@.last()@ };
                let added = crate::history::add_messages(crate::history::rooms_view(old(self).rooms@), seq![sent]);
                let m = AppModel { rooms: final(self).rooms, msg_queue: final(self).msg_queue, ..*old(self) };
                &&& messages_view(final(self).msg_queue@) == messages_view(old(self).msg_queue@).drop_last()
                &&& crate::history::rooms_view(final(self).rooms@) == added.0
                &&& *final(self) == (AppModel {
                    rooms: final(self).rooms,
                    msg_queue: final(self).msg_queue,
                    last_viewed_messages: final(self).last_viewed_messages,
                    sending_message: final(self).sending_message,
                    ..*old(self)
                })
                &&& (crate::history::actions_view(r.0@), r.1) == crate::history::show_actions(m, added.1, false, window_active)
                &&& crate::history::pairs_view(final(self).last_viewed_messages@) == if r.1 {
                    match crate::history::read_mark(m, added.1, window_active) {
                        Some((room, id)) => crate::history::pairs_insert(crate::history::pairs_view(old(self).last_viewed_messages@), room, id),
                        None => crate::history::pairs_view(old(self).last_viewed_messages@),
                    }
                } else {
                    crate::history::pairs_view(old(self).last_viewed_messages@)
                }
            }),
    {
        let ghost q0 = messages_view(self.msg_queue@);
        if self.msg_queue.len() == 0 {
            let cmd = self.force_dequeue_message();
            return (Vec::new(), true, cmd);
        }
        match self.msg_queue.pop() {
            Some(m) => {
                proof {
                    assert(messages_view(self.msg_queue@) =~= q0.drop_last());
                }
                let mut m = m;
                m.id = Some(evid);
                let mut v: Vec<Message> = Vec::new();
                v.push(m);
                proof {
                    assert(messages_view(v@) =~= seq![v@[0]@]);
                }
                let (acts, ok) = self.show_room_messages(v, false, window_active);
                let cmd = self.force_dequeue_message();
                (acts, ok, cmd)
            },
            None => {
                let cmd = self.force_dequeue_message();
                (Vec::new(), true, cmd)
            },
        }
    }
}

/// Messages are sent in the order they were written: queuing a message
/// (`queue_message`) does not change which waiting message is sent next.
pub proof fn lemma_queue_keeps_next(before: AppModel, after: AppModel, m: MessageV, r: (Option<UiMessage>, Option<SendCommand>))
    requires
        queued(before, after, m, r),
        before.msg_queue@.len() > 0,
    ensures
        after.msg_queue@.len() > 0,
        after.msg_queue@.last()@ == before.msg_queue@.last()@,
{
    let q = messages_view(before.msg_queue@);
    assert(q.last() == before.msg_queue@.last()@);
    if spec_ui_message(before, m) is Some {
        assert((seq![m] + q).last() == q.last());
    }
    assert(messages_view(after.msg_queue@).len() == after.msg_queue@.len());
    assert(messages_view(after.msg_queue@).last() == after.msg_queue@.last()@);
}

/// The queued messages of room `room` that the history can show, from the
/// oldest (the end of the queue) on.
pub open spec fn tmp_selection(m: AppModel, room: Seq<char>) -> Seq<MessageV> {
    messages_view(m.msg_queue@).reverse().filter(shown_in(m, room))
}

/// Messages of room `room` that the history can show.
pub open spec fn shown_in(m: AppModel, room: Seq<char>) -> spec_fn(MessageV) -> bool {
    |x: MessageV| x.room == room && spec_ui_message(m, x) is Some
}

impl AppModel {
    /// The messages waiting to be sent in the active
    /// room, as the history shows them, the oldest first; none without an
    /// active room the client knows.
    pub fn tmp_messages(&self) -> (r: Vec<UiMessage>)
        ensures
            match room_index(self.rooms@, or_empty(self.active_room)) {
                Some(i) => {
                    let sel = tmp_selection(*self, self.rooms@[i].id@);
                    &&& r@.len() == sel.len()
                    &&& forall|k: int| 0 <= k < sel.len() ==> (spec_ui_message(*self, sel[k]) matches Some((t, h, name))
                        && shows(#[trigger] r@[k], sel[k], t, h, name))
                },
                None => r@.len() == 0,
            },
    {
        let mut out: Vec<UiMessage> = Vec::new();
        let active = match &self.active_room {
            Some(a) => a.as_str(),
            None => {
                proof {
                    assert(""@ =~= Seq::<char>::empty()) by {
                        reveal_strlit("");
                    }
                }
                ""
            },
        };
        let i = match find_room(&self.rooms, active) {
            Some(i) => i,
            None => return out,
        };
        let room = self.rooms[i].id.as_str();
        let ghost qr = messages_view(self.msg_queue@).reverse();
        let ghost p = shown_in(*self, room@);
        let n = self.msg_queue.len();
        let mut k: usize = 0;
        proof {
            assert(qr.take(0).filter(p) =~= Seq::<MessageV>::empty());
        }
        while k < n
            invariant
                k <= n,
                n == self.msg_queue@.len(),
                qr == messages_view(self.msg_queue@).reverse(),
                p == shown_in(*self, room@),
                out@.len() == qr.take(k as int).filter(p).len(),
                forall|j: int| 0 <= j < out@.len() ==> (spec_ui_message(*self, qr.take(k as int).filter(p)[j]) matches Some((t, h, name))
                    && shows(#[trigger] out@[j], qr.take(k as int).filter(p)[j], t, h, name)),
            decreases n - k,
        {
            proof {
                crate::seqs::lemma_filter_step(qr, p, k as int);
                assert(qr[k as int] == self.msg_queue@[n - 1 - k]@);
            }
            let x = &self.msg_queue[n - 1 - k];
            if str_eq(x.room.as_str(), room) {
                match self.create_new_room_message(x) {
                    Some(u) => {
                        out.push(u);
                    },
                    None => {},
                }
            }
            k = k + 1;
        }
        proof {
            assert(qr.take(n as int) =~= qr);
            assert(tmp_selection(*self, self.rooms@[i as int].id@) == qr.filter(p));
        }
        out
    }
}

} // verus!
