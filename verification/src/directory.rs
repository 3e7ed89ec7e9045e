//! The room directory: what a search asks the server, and the rooms it
//! finds, the most populated first.
use vstd::prelude::*;
use crate::appop::AppModel;
use crate::history::rooms_view;
use crate::json::str_eq;
use crate::seqs::{first_index, lemma_first_index, lemma_first_index_found};
use crate::types::{Room, RoomV};

verus! {

/// What a directory search asks the server.
pub struct DirectorySearch {
    /// The user's homeserver, which the request goes to.
    pub server_url: String,
    /// The session's access token.
    pub access_token: String,
    /// The homeserver whose directory is searched; empty for the user's own.
    pub homeserver: String,
    /// The search term.
    pub term: String,
    /// The third party protocol instance to search; empty for Matrix rooms.
    pub protocol: String,
    /// Whether more results of the last search are asked for.
    pub more: bool,
}

/// The homeserver and protocol a search goes to: another homeserver when the
/// user chose one; `matrix.org` when chosen as the protocol, the protocol
/// then being left empty; else the user's own homeserver.
pub open spec fn search_target(other_protocol: bool, protocol: Seq<char>, other_homeserver: bool, url: Seq<char>) -> (Seq<char>, Seq<char>) {
    let p = if other_protocol { protocol } else { Seq::empty() };
    if other_homeserver {
        (url, p)
    } else if p == "matrix.org"@ {
        ("matrix.org"@, Seq::empty())
    } else {
        (Seq::empty(), p)
    }
}

/// Rooms ordered by their number of members, greatest first.
pub open spec fn by_members(s: Seq<RoomV>) -> bool {
    forall|i: int, j: int| 0 <= i < j < s.len() ==> #[trigger] s[i].n_members >= #[trigger] s[j].n_members
}

/// Where a room with `n` members goes among rooms ordered by members: after
/// every room with as many members or more.
pub open spec fn members_pos(s: Seq<RoomV>, n: i64) -> int {
    match first_index(s, |r: RoomV| r.n_members < n) {
        Some(i) => i,
        None => s.len() as int,
    }
}

/// `rooms.sort_by_key(|a| -a.n_members)`: the rooms ordered by members,
/// greatest first, rooms with as many members keeping their order.
pub open spec fn sort_by_members(rs: Seq<RoomV>) -> Seq<RoomV>
    decreases rs.len(),
{
    if rs.len() == 0 {
        Seq::empty()
    } else {
        let s = sort_by_members(rs.drop_last());
        s.insert(members_pos(s, rs.last().n_members), rs.last())
    }
}

impl AppModel {
    /// The search the user asks for, made with the session's homeserver and
    /// access token; without a session nothing happens. A new search (not
    /// more of the last one) forgets the rooms found so far.
    pub fn search_rooms(
        &mut self,
        more: bool,
        term: String,
        other_protocol: bool,
        protocol: &str,
        other_homeserver: bool,
        homeserver_url: &str,
    ) -> (r: Option<DirectorySearch>)
        ensures
            old(self).login_data is None ==> r is None && *final(self) == *old(self),
            old(self).login_data matches Some(l) ==> {
                &&& *final(self) == (AppModel { directory: final(self).directory, ..*old(self) })
                &&& more ==> final(self).directory == old(self).directory
                &&& !more ==> final(self).directory@.len() == 0
                &&& r matches Some(q) && q.server_url@ == l.server_url@ && q.access_token@ == l.access_token@
                    && (q.homeserver@, q.protocol@) == search_target(other_protocol, protocol@, other_homeserver, homeserver_url@)
                    && q.term@ == term@ && q.more == more
            },
    {
        let (server_url, access_token) = match &self.login_data {
            Some(l) => (l.server_url.clone(), l.access_token.clone()),
            None => return None,
        };
        proof {
            assert(""@ =~= Seq::<char>::empty()) by {
                reveal_strlit("");
            }
        }
        let p = if other_protocol {
            protocol.to_owned()
        } else {
            String::new()
        };
        let (homeserver, protocol) = if other_homeserver {
            (homeserver_url.to_owned(), p)
        } else if str_eq(p.as_str(), "matrix.org") {
            ("matrix.org".to_owned(), String::new())
        } else {
            (String::new(), p)
        };
        if !more {
            self.directory = Vec::new();
        }
        Some(DirectorySearch { server_url, access_token, homeserver, term, protocol, more })
    }

    /// The rooms a search found join the
    /// directory, the most populated first. The rooms' member counts are
    /// negated to sort them, so none may be `i64::MIN`.
    pub fn append_directory_rooms(&mut self, rooms: Vec<Room>)
        requires
            forall|i: int| 0 <= i < rooms@.len() ==> (#[trigger] rooms@[i]).n_members > i64::MIN,
        ensures
            *final(self) == (AppModel { directory: final(self).directory, ..*old(self) }),
            rooms_view(final(self).directory@) == rooms_view(old(self).directory@) + sort_by_members(rooms_view(rooms@)),
    {
        let ghost rv = rooms_view(rooms@);
        let total = rooms.len();
        let mut rest = rooms;
        let mut sorted: Vec<Room> = Vec::new();
        let mut k: usize = 0;
        proof {
            assert(rv.take(0) =~= Seq::<RoomV>::empty());
            assert(rooms_view(sorted@) =~= Seq::<RoomV>::empty());
            assert(rooms_view(rest@) =~= rv.skip(0));
        }
        while rest.len() > 0
            invariant
                k + rest@.len() == rv.len(),
                rv.len() == total,
                rooms_view(rest@) == rv.skip(k as int),
                rooms_view(sorted@) == sort_by_members(rv.take(k as int)),
                forall|i: int| 0 <= i < rest@.len() ==> (#[trigger] rest@[i]).n_members > i64::MIN,
            decreases rest@.len(),
        {
            let ghost before_rest = rest@;
            let r = rest.remove(0);
            proof {
                assert(r@ == rooms_view(before_rest)[0]);
                assert(rooms_view(before_rest)[0] == rv[k as int]);
                assert(rooms_view(rest@) =~= rooms_view(before_rest).drop_first());
                assert(rv.skip(k as int).drop_first() =~= rv.skip(k + 1));
                assert(rv.take(k + 1).drop_last() =~= rv.take(k as int));
                assert(rv.take(k + 1).last() == rv[k as int]);
                assert forall|i: int| 0 <= i < rest@.len() implies (#[trigger] rest@[i]).n_members > i64::MIN by {
                    assert(rest@[i] == before_rest[i + 1]);
                }
            }
            let pos = members_position(&sorted, r.n_members);
            let ghost before = sorted@;
            sorted.insert(pos, r);
            proof {
                assert(rooms_view(sorted@) =~= rooms_view(before).insert(pos as int, rv[k as int]));
            }
            k = k + 1;
        }
        proof {
            assert(rv.take(rv.len() as int) =~= rv);
        }
        let ghost d0 = self.directory@;
        let ghost s0 = sorted@;
        self.directory.append(&mut sorted);
        proof {
            assert(rooms_view(self.directory@) =~= rooms_view(d0) + rooms_view(s0));
        }
    }
}

/// Where a room with `n` members goes among the rooms `rows`, ordered by members.
fn members_position(rows: &Vec<Room>, n: i64) -> (p: usize)
    ensures
        p == members_pos(rooms_view(rows@), n),
        p <= rows@.len(),
{
    let ghost rv = rooms_view(rows@);
    let ghost pred = |r: RoomV| r.n_members < n;
    let mut i: usize = 0;
    while i < rows.len()
        invariant
            i <= rows@.len(),
            rv == rooms_view(rows@),
            pred == (|r: RoomV| r.n_members < n),
            forall|j: int| 0 <= j < i ==> !pred(#[trigger] rv[j]),
        decreases rows@.len() - i,
    {
        if rows[i].n_members < n {
            proof {
                lemma_first_index(rv, pred, i as int);
            }
            return i;
        }
        i = i + 1;
    }
    proof {
        lemma_first_index(rv, pred, rv.len() as int);
    }
    i
}

/// Inserting at `members_pos` keeps rooms ordered by members.
proof fn lemma_members_insert(s: Seq<RoomV>, x: RoomV)
    requires
        by_members(s),
    ensures
        by_members(s.insert(members_pos(s, x.n_members), x)),
        0 <= members_pos(s, x.n_members) <= s.len(),
{
    let pred = |r: RoomV| r.n_members < x.n_members;
    lemma_first_index_found(s, pred);
    let p = members_pos(s, x.n_members);
    let t = s.insert(p, x);
    assert forall|i: int, j: int| 0 <= i < j < t.len() implies #[trigger] t[i].n_members >= #[trigger] t[j].n_members by {
        if j < p {
        } else if j == p {
            assert(!pred(s[i]));
        } else if i < p {
            assert(!pred(s[i]));
            if j - 1 >= p {
                assert(pred(s[p]));
                assert(s[p].n_members >= s[j - 1].n_members || p == j - 1);
            }
        } else if i == p {
            assert(pred(s[p]));
            assert(s[p].n_members >= s[j - 1].n_members || p == j - 1);
        } else {
            assert(s[i - 1].n_members >= s[j - 1].n_members);
        }
    }
}

/// The rooms a directory search finds are listed ordered by their number of
/// members, greatest first, and they are the same rooms, none lost or added.
pub proof fn lemma_sort_by_members(rs: Seq<RoomV>)
    ensures
        by_members(sort_by_members(rs)),
        sort_by_members(rs).to_multiset() == rs.to_multiset(),
    decreases rs.len(),
{
    if rs.len() > 0 {
        let s = sort_by_members(rs.drop_last());
        lemma_sort_by_members(rs.drop_last());
        lemma_members_insert(s, rs.last());
        let p = members_pos(s, rs.last().n_members);
        vstd::seq_lib::to_multiset_insert(s, p, rs.last());
        vstd::seq_lib::to_multiset_build(rs.drop_last(), rs.last());
        assert(rs.drop_last().push(rs.last()) =~= rs);
        assert(sort_by_members(rs).to_multiset() =~= rs.to_multiset());
    } else {
        assert(rs =~= Seq::<RoomV>::empty());
    }
}

/// What the user does to choose where the directory searches.
pub enum DirectoryChoiceEvent {
    /// The default server's button was toggled; whether it is now on.
    DefaultServer(bool),
    /// The protocol button was toggled; whether it is now on.
    OtherProtocol(bool),
    /// Another protocol was picked in the list.
    ProtocolChanged,
    /// The other homeserver's button was toggled; whether it is now on.
    OtherHomeserver(bool),
    /// The other homeserver's URL was edited.
    UrlChanged,
}

/// What changes in the directory's controls: the label that tells where the
/// search goes, and whether the protocol list and the URL entry can be used
/// (`None`: unchanged).
pub struct DirectoryChoiceUpdate {
    pub label: Option<String>,
    pub protocols_sensitive: Option<bool>,
    pub url_sensitive: Option<bool>,
}

/// The protocol at position `active` of the list, empty where there is none.
pub open spec fn protocol_at(protocols: Seq<String>, active: i32) -> Seq<char> {
    if 0 <= active < protocols.len() {
        protocols[active as int]@
    } else {
        Seq::empty()
    }
}

fn protocol_label(protocols: &Vec<String>, active: i32) -> (r: String)
    ensures
        r@ == protocol_at(protocols@, active),
{
    if 0 <= active && (active as usize) < protocols.len() {
        protocols[active as usize].clone()
    } else {
        String::new()
    }
}

/// How the controls follow the user's choice; `active`
/// is the position of the protocol picked (negative for none) and `url` the
/// homeserver's URL as typed.
pub fn directory_choice(ev: DirectoryChoiceEvent, protocols: &Vec<String>, active: i32, url: &str) -> (r: DirectoryChoiceUpdate)
    ensures
        match ev {
            DirectoryChoiceEvent::DefaultServer(on) => r.label matches Some(l) && l@ == "Default Matrix Server"@
                && r.protocols_sensitive == (if on { Some(false) } else { None::<bool> })
                && r.url_sensitive == (if on { Some(false) } else { None::<bool> }),
            DirectoryChoiceEvent::OtherProtocol(on) => r.label matches Some(l) && l@ == protocol_at(protocols@, active)
                && r.protocols_sensitive == (if on { Some(true) } else { None::<bool> })
                && r.url_sensitive == (if on { Some(false) } else { None::<bool> }),
            DirectoryChoiceEvent::ProtocolChanged => r.label matches Some(l) && l@ == protocol_at(protocols@, active)
                && r.protocols_sensitive is None && r.url_sensitive is None,
            DirectoryChoiceEvent::OtherHomeserver(on) => r.label is None
                && r.protocols_sensitive == (if on { Some(false) } else { None::<bool> })
                && r.url_sensitive == (if on { Some(true) } else { None::<bool> }),
            DirectoryChoiceEvent::UrlChanged => r.label matches Some(l) && l@ == url@
                && r.protocols_sensitive is None && r.url_sensitive is None,
        },
{
    match ev {
        DirectoryChoiceEvent::DefaultServer(on) => DirectoryChoiceUpdate {
            label: Some("Default Matrix Server".to_owned()),
            protocols_sensitive: if on { Some(false) } else { None },
            url_sensitive: if on { Some(false) } else { None },
        },
        DirectoryChoiceEvent::OtherProtocol(on) => DirectoryChoiceUpdate {
            label: Some(protocol_label(protocols, active)),
            protocols_sensitive: if on { Some(true) } else { None },
            url_sensitive: if on { Some(false) } else { None },
        },
        DirectoryChoiceEvent::ProtocolChanged => DirectoryChoiceUpdate {
            label: Some(protocol_label(protocols, active)),
            protocols_sensitive: None,
            url_sensitive: None,
        },
        DirectoryChoiceEvent::OtherHomeserver(on) => DirectoryChoiceUpdate {
            label: None,
            protocols_sensitive: if on { Some(false) } else { None },
            url_sensitive: if on { Some(true) } else { None },
        },
        DirectoryChoiceEvent::UrlChanged => DirectoryChoiceUpdate {
            label: Some(url.to_owned()),
            protocols_sensitive: None,
            url_sensitive: None,
        },
    }
}

/// What the entry of a room found in the directory shows.
pub struct RoomBoxContent {
    /// The room's name in bold, as Pango markup.
    pub title: String,
    /// The room's topic, as Pango markup.
    pub topic: String,
    /// The room's alias, dimmed, as Pango markup.
    pub alias: String,
    /// The number of members.
    pub member_count: String,
    /// The room the Join button joins.
    pub join: String,
}

/// The name a directory entry shows: the room's name, or its alias when the
/// name is missing or empty.
pub open spec fn box_name(r: Room) -> Seq<char> {
    match r.name {
        Some(n) if n@.len() > 0 => n@,
        _ => crate::appop::or_empty(r.alias),
    }
}

/// The texts of the directory entry of room `r`.
pub fn room_box(r: &Room) -> (c: RoomBoxContent)
    ensures
        c.title@ == "<b>"@ + box_name(*r) + "</b>"@,
        c.topic@ == crate::markup::linked(crate::markup::escaped(crate::appop::or_empty(r.topic))),
        c.alias@ == "<span alpha=\"60%\">"@ + crate::appop::or_empty(r.alias) + "</span>"@,
        c.member_count@ == crate::text::int_decimal(r.n_members as int),
        c.join@ == r.id@,
{
    proof {
        reveal_strlit("");
        assert(""@ =~= Seq::<char>::empty());
    }
    let alias: &str = match &r.alias {
        Some(a) => a.as_str(),
        None => "",
    };
    let name: &str = match &r.name {
        Some(n) => if n.as_str().is_empty() {
            alias
        } else {
            n.as_str()
        },
        None => alias,
    };
    let topic: &str = match &r.topic {
        Some(t) => t.as_str(),
        None => "",
    };
    let t1 = crate::text::concat("<b>", name);
    let a1 = crate::text::concat("<span alpha=\"60%\">", alias);
    RoomBoxContent {
        title: crate::text::concat(t1.as_str(), "</b>"),
        topic: crate::markup::markup_text(topic),
        alias: crate::text::concat(a1.as_str(), "</span>"),
        member_count: crate::text::i64_to_string(r.n_members),
        join: r.id.clone(),
    }
}

} // verus!
