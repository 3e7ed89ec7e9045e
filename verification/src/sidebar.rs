//! The model behind the room list in the sidebar: one row per room, kept in
//! the list of its category, the normal rooms ordered by their last activity.
use vstd::prelude::*;
use crate::json::str_eq;
use crate::seqs::{first_index, lemma_first_index};
use crate::text::{contains, i64_to_string, int_decimal, lowercase, seq_contains, to_lowercase};
use crate::types::{Message, Room, opt_view};

verus! {

/// The properties of one sidebar row.
pub struct SidebarRow {
    pub room_id: Option<String>,
    pub name: Option<String>,
    pub avatar: Option<String>,
    pub notifications: Option<String>,
    pub direct: bool,
    pub bold: bool,
    pub highlight: bool,
    pub selected: bool,
    pub hidden: bool,
    /// The time of the room's last message, used for ordering.
    pub key: u64,
    /// Which row object this is; rows are told apart by it.
    pub obj: u64,
}

pub struct SidebarRowV {
    pub room_id: Option<Seq<char>>,
    pub name: Option<Seq<char>>,
    pub avatar: Option<Seq<char>>,
    pub notifications: Option<Seq<char>>,
    pub direct: bool,
    pub bold: bool,
    pub highlight: bool,
    pub selected: bool,
    pub hidden: bool,
    pub key: u64,
    pub obj: u64,
}

impl View for SidebarRow {
    type V = SidebarRowV;

    open spec fn view(&self) -> SidebarRowV {
        SidebarRowV {
            room_id: opt_view(self.room_id),
            name: opt_view(self.name),
            avatar: opt_view(self.avatar),
            notifications: opt_view(self.notifications),
            direct: self.direct,
            bold: self.bold,
            highlight: self.highlight,
            selected: self.selected,
            hidden: self.hidden,
            key: self.key,
            obj: self.obj,
        }
    }
}

pub open spec fn opt_str(o: Option<&str>) -> Option<Seq<char>> {
    match o {
        Some(s) => Some(s@),
        None => None,
    }
}

fn to_owned_opt(o: Option<&str>) -> (r: Option<String>)
    ensures
        opt_view(r) == opt_str(o),
{
    match o {
        Some(s) => Some(s.to_owned()),
        None => None,
    }
}

fn opt_eq(a: &Option<String>, b: Option<&str>) -> (r: bool)
    ensures
        r == (opt_view(*a) == opt_str(b)),
{
    match (a, b) {
        (Some(x), Some(y)) => str_eq(x.as_str(), y),
        (None, None) => true,
        _ => false,
    }
}

fn as_opt_str(o: &Option<String>) -> (r: Option<&str>)
    ensures
        opt_str(r) == opt_view(*o),
{
    match o {
        Some(s) => Some(s.as_str()),
        None => None,
    }
}

impl SidebarRow {
    /// A row that is neither selected nor hidden.
    pub fn new(
        room_id: &str,
        name: Option<&str>,
        avatar: Option<&str>,
        notifications: Option<&str>,
        direct: bool,
        bold: bool,
        highlight: bool,
        key: u64,
        obj: u64,
    ) -> (r: SidebarRow)
        ensures
            r@ == (SidebarRowV {
                room_id: Some(room_id@),
                name: opt_str(name),
                avatar: opt_str(avatar),
                notifications: opt_str(notifications),
                direct,
                bold,
                highlight,
                selected: false,
                hidden: false,
                key,
                obj,
            }),
    {
        SidebarRow {
            room_id: Some(room_id.to_owned()),
            name: to_owned_opt(name),
            avatar: to_owned_opt(avatar),
            notifications: to_owned_opt(notifications),
            direct,
            bold,
            highlight,
            selected: false,
            hidden: false,
            key,
            obj,
        }
    }

    /// Sets the name; true when it was different (the property
    /// is notified only then).
    pub fn change_name(&mut self, value: Option<&str>) -> (changed: bool)
        ensures
            final(self)@ == (SidebarRowV { name: opt_str(value), ..old(self)@ }),
            changed == (old(self)@.name != opt_str(value) || value is None),
    {
        if value.is_some() && opt_eq(&self.name, value) {
            return false;
        }
        self.name = to_owned_opt(value);
        true
    }

    /// As `change_name`, for the avatar.
    pub fn change_avatar(&mut self, value: Option<&str>) -> (changed: bool)
        ensures
            final(self)@ == (SidebarRowV { avatar: opt_str(value), ..old(self)@ }),
            changed == (old(self)@.avatar != opt_str(value) || value is None),
    {
        if value.is_some() && opt_eq(&self.avatar, value) {
            return false;
        }
        self.avatar = to_owned_opt(value);
        true
    }

    /// As `change_name`, for the notification text.
    pub fn change_notifications(&mut self, value: Option<&str>) -> (changed: bool)
        ensures
            final(self)@ == (SidebarRowV { notifications: opt_str(value), ..old(self)@ }),
            changed == (old(self)@.notifications != opt_str(value) || value is None),
    {
        if value.is_some() && opt_eq(&self.notifications, value) {
            return false;
        }
        self.notifications = to_owned_opt(value);
        true
    }

    /// Sets the flag; true when it was different.
    pub fn change_direct(&mut self, value: bool) -> (changed: bool)
        ensures
            final(self)@ == (SidebarRowV { direct: value, ..old(self)@ }),
            changed == (old(self)@.direct != value),
    {
        if self.direct == value {
            return false;
        }
        self.direct = value;
        true
    }

    /// Sets the flag; true when it was different.
    pub fn change_bold(&mut self, value: bool) -> (changed: bool)
        ensures
            final(self)@ == (SidebarRowV { bold: value, ..old(self)@ }),
            changed == (old(self)@.bold != value),
    {
        if self.bold == value {
            return false;
        }
        self.bold = value;
        true
    }

    /// Sets the flag; true when it was different.
    pub fn change_hightlight(&mut self, value: bool) -> (changed: bool)
        ensures
            final(self)@ == (SidebarRowV { highlight: value, ..old(self)@ }),
            changed == (old(self)@.highlight != value),
    {
        if self.highlight == value {
            return false;
        }
        self.highlight = value;
        true
    }

    /// Sets the ordering key; true when it was different.
    pub fn change_key(&mut self, value: u64) -> (changed: bool)
        ensures
            final(self)@ == (SidebarRowV { key: value, ..old(self)@ }),
            changed == (old(self)@.key != value),
    {
        if self.key == value {
            return false;
        }
        self.key = value;
        true
    }
}

/// The notification text of a room: a dot for an invitation, else its count when not zero.
pub open spec fn notifications_text(room: &Room) -> Option<Seq<char>> {
    if room.inv {
        Some("●"@)
    } else if room.notifications != 0 {
        Some(int_decimal(room.notifications as int))
    } else {
        None
    }
}

/// The ordering key of a room: the time of its last message, 0 without messages.
pub open spec fn room_key(room: &Room) -> u64 {
    if room.messages@.len() == 0 {
        0
    } else {
        room.messages@.last().date.secs as u64
    }
}

/// The row for `room`, as object `obj`.
pub open spec fn row_of(room: &Room, obj: u64) -> SidebarRowV {
    SidebarRowV {
        room_id: Some(room.id@),
        name: opt_view(room.name),
        avatar: opt_view(room.avatar),
        notifications: notifications_text(room),
        direct: room.direct,
        bold: false,
        highlight: room.highlight > 0 || room.inv,
        selected: false,
        hidden: false,
        key: room_key(room),
        obj,
    }
}

fn notifications_of(room: &Room) -> (r: Option<String>)
    ensures
        opt_view(r) == notifications_text(room),
{
    if room.inv {
        Some("●".to_owned())
    } else if room.notifications != 0 {
        Some(i64_to_string(room.notifications as i64))
    } else {
        None
    }
}

fn key_of(room: &Room) -> (k: u64)
    ensures
        k == room_key(room),
{
    if room.messages.len() == 0 {
        0
    } else {
        room.messages[room.messages.len() - 1].date.secs as u64
    }
}

impl SidebarRow {
    /// `From<&Room>`: the row for a room, as object `obj`.
    pub fn from_room(room: &Room, obj: u64) -> (r: SidebarRow)
        ensures
            r@ == row_of(room, obj),
    {
        let n = notifications_of(room);
        SidebarRow::new(
            room.id.as_str(),
            as_opt_str(&room.name),
            as_opt_str(&room.avatar),
            as_opt_str(&n),
            room.direct,
            false,
            room.highlight > 0 || room.inv,
            key_of(room),
            obj,
        )
    }
}


pub open spec fn rows_view(v: Seq<SidebarRow>) -> Seq<SidebarRowV> {
    v.map_values(|r: SidebarRow| r@)
}

/// Rows ordered by key, greatest first.
pub open spec fn sorted_desc(s: Seq<SidebarRowV>) -> bool {
    forall|i: int, j: int| 0 <= i < j < s.len() ==> #[trigger] s[i].key >= #[trigger] s[j].key
}

/// Where a row with key `key` goes in a list ordered by key: after every row
/// whose key is not smaller.
pub open spec fn insert_pos(s: Seq<SidebarRowV>, key: u64) -> int {
    match first_index(s, |r: SidebarRowV| r.key < key) {
        Some(i) => i,
        None => s.len() as int,
    }
}

/// Every row of `s` is one of the objects `w`.
pub open spec fn all_watched(s: Seq<SidebarRowV>, w: Seq<u64>) -> bool {
    forall|i: int| 0 <= i < s.len() ==> w.contains(#[trigger] s[i].obj)
}

/// `s` sorted by key, greatest first, rows of equal keys in the order they
/// had: each row in turn goes after every row already placed whose key is
/// not smaller.
pub open spec fn sort_by_key(s: Seq<SidebarRowV>) -> Seq<SidebarRowV>
    decreases s.len(),
{
    if s.len() == 0 {
        s
    } else {
        let t = sort_by_key(s.drop_last());
        t.insert(insert_pos(t, s.last().key), s.last())
    }
}

/// The position of the first row of room `id`.
pub open spec fn position_of(s: Seq<SidebarRowV>, id: Seq<char>) -> Option<int> {
    first_index(s, |r: SidebarRowV| r.room_id == Some(id))
}

/// The position of the row that is object `obj`.
pub open spec fn position_of_obj(s: Seq<SidebarRowV>, obj: u64) -> Option<int> {
    first_index(s, |r: SidebarRowV| r.obj == obj)
}

/// `s` without its element at `p`, if there is one.
pub open spec fn remove_at(s: Seq<SidebarRowV>, p: Option<int>) -> Seq<SidebarRowV> {
    match p {
        Some(i) => s.remove(i),
        None => s,
    }
}

/// Store entries for room `id`.
pub open spec fn key_is(id: Seq<char>) -> spec_fn((Seq<char>, u64)) -> bool {
    |e: (Seq<char>, u64)| e.0 == id
}

/// The object the store holds for room `id`.
pub open spec fn store_lookup(store: Seq<(Seq<char>, u64)>, id: Seq<char>) -> Option<u64> {
    match first_index(store, key_is(id)) {
        Some(i) => Some(store[i].1),
        None => None,
    }
}

/// The store after `id` is given object `obj` (a map insert).
pub open spec fn store_insert(store: Seq<(Seq<char>, u64)>, id: Seq<char>, obj: u64) -> Seq<(Seq<char>, u64)> {
    match first_index(store, key_is(id)) {
        Some(i) => store.update(i, (id, obj)),
        None => store.push((id, obj)),
    }
}

/// The store without room `id` (a map remove).
pub open spec fn store_remove(store: Seq<(Seq<char>, u64)>, id: Seq<char>) -> Seq<(Seq<char>, u64)> {
    match first_index(store, key_is(id)) {
        Some(i) => store.remove(i),
        None => store,
    }
}

/// The room list of the sidebar: a list per category, and for each room the
/// row that stands for it.
pub struct Sidebar {
    pub invites: Vec<SidebarRow>,
    pub favorites: Vec<SidebarRow>,
    pub rooms: Vec<SidebarRow>,
    pub low_priority: Vec<SidebarRow>,
    /// For each room id, the object of its row, each id once.
    pub store: Vec<(String, u64)>,
    /// The object the next row gets.
    pub next_obj: u64,
    /// The objects of the rows whose key changes re-sort the normal rooms:
    /// the rows that were added among them.
    pub resorting: Vec<u64>,
}

pub open spec fn store_view(v: Seq<(String, u64)>) -> Seq<(Seq<char>, u64)> {
    v.map_values(|e: (String, u64)| (e.0@, e.1))
}

impl Sidebar {
    /// The normal rooms are ordered by key, greatest first.
    pub open spec fn wf(&self) -> bool {
        sorted_desc(rows_view(self.rooms@))
    }

    /// The normal rooms are ordered and each of their rows re-sorts them
    /// when its key changes, as when only [`Sidebar::add_room`] put rows
    /// there.
    pub open spec fn ordered(&self) -> bool {
        self.wf() && all_watched(rows_view(self.rooms@), self.resorting@)
    }

    /// All lists empty.
    pub fn new() -> (s: Sidebar)
        ensures
            s.ordered(),
            s.invites@.len() == 0 && s.favorites@.len() == 0 && s.rooms@.len() == 0
                && s.low_priority@.len() == 0 && s.store@.len() == 0,
            s.next_obj == 0,
            s.resorting@.len() == 0,
    {
        Sidebar {
            invites: Vec::new(),
            favorites: Vec::new(),
            rooms: Vec::new(),
            low_priority: Vec::new(),
            store: Vec::new(),
            next_obj: 0,
            resorting: Vec::new(),
        }
    }

    pub fn get_invites_store(&self) -> (r: &Vec<SidebarRow>)
        ensures
            r == &self.invites,
    {
        &self.invites
    }

    pub fn get_favorites_store(&self) -> (r: &Vec<SidebarRow>)
        ensures
            r == &self.favorites,
    {
        &self.favorites
    }

    pub fn get_rooms_store(&self) -> (r: &Vec<SidebarRow>)
        ensures
            r == &self.rooms,
    {
        &self.rooms
    }

    pub fn get_low_priority_store(&self) -> (r: &Vec<SidebarRow>)
        ensures
            r == &self.low_priority,
    {
        &self.low_priority
    }
}

/// The position of the first row of room `id`.
pub fn get_position_by_id(store: &Vec<SidebarRow>, id: &str) -> (r: Option<u32>)
    requires
        store@.len() <= u32::MAX,
    ensures
        r matches Some(p) ==> position_of(rows_view(store@), id@) == Some(p as int),
        r is None ==> position_of(rows_view(store@), id@) is None,
{
    let ghost rv = rows_view(store@);
    let ghost p = |r: SidebarRowV| r.room_id == Some(id@);
    let mut i: usize = 0;
    while i < store.len()
        invariant
            i <= store.len(),
            store@.len() <= u32::MAX,
            rv == rows_view(store@),
            p == (|r: SidebarRowV| r.room_id == Some(id@)),
            forall|j: int| 0 <= j < i ==> !p(#[trigger] rv[j]),
        decreases store.len() - i,
    {
        let same = match &store[i].room_id {
            Some(r) => str_eq(r.as_str(), id),
            None => false,
        };
        if same {
            proof {
                lemma_first_index(rv, p, i as int);
            }
            return Some(i as u32);
        }
        i = i + 1;
    }
    proof {
        lemma_first_index(rv, p, rv.len() as int);
    }
    None
}

fn position_by_obj(store: &Vec<SidebarRow>, obj: u64) -> (r: Option<usize>)
    ensures
        r matches Some(p) ==> position_of_obj(rows_view(store@), obj) == Some(p as int) && p < store@.len(),
        r is None ==> position_of_obj(rows_view(store@), obj) is None,
{
    let ghost rv = rows_view(store@);
    let ghost p = |r: SidebarRowV| r.obj == obj;
    let mut i: usize = 0;
    while i < store.len()
        invariant
            i <= store.len(),
            rv == rows_view(store@),
            p == (|r: SidebarRowV| r.obj == obj),
            forall|j: int| 0 <= j < i ==> !p(#[trigger] rv[j]),
        decreases store.len() - i,
    {
        if store[i].obj == obj {
            proof {
                lemma_first_index(rv, p, i as int);
            }
            return Some(i);
        }
        i = i + 1;
    }
    proof {
        lemma_first_index(rv, p, rv.len() as int);
    }
    None
}

fn store_position(store: &Vec<(String, u64)>, id: &str) -> (r: Option<usize>)
    ensures
        r matches Some(p) ==> first_index(store_view(store@), key_is(id@)) == Some(p as int) && p < store@.len(),
        r is None ==> first_index(store_view(store@), key_is(id@)) is None,
{
    let ghost sv = store_view(store@);
    let ghost p = key_is(id@);
    let mut i: usize = 0;
    while i < store.len()
        invariant
            i <= store.len(),
            sv == store_view(store@),
            p == key_is(id@),
            forall|j: int| 0 <= j < i ==> !p(#[trigger] sv[j]),
        decreases store.len() - i,
    {
        if str_eq(store[i].0.as_str(), id) {
            proof {
                lemma_first_index(sv, p, i as int);
            }
            return Some(i);
        }
        i = i + 1;
    }
    proof {
        lemma_first_index(sv, p, sv.len() as int);
    }
    None
}


impl SidebarRow {
    pub fn duplicate(&self) -> (r: SidebarRow)
        ensures
            r@ == self@,
    {
        SidebarRow {
            room_id: self.room_id.clone(),
            name: self.name.clone(),
            avatar: self.avatar.clone(),
            notifications: self.notifications.clone(),
            direct: self.direct,
            bold: self.bold,
            highlight: self.highlight,
            selected: self.selected,
            hidden: self.hidden,
            key: self.key,
            obj: self.obj,
        }
    }
}

/// Where a row with key `key` goes in `rows`.
fn find_insert_pos(rows: &Vec<SidebarRow>, key: u64) -> (p: usize)
    ensures
        p as int == insert_pos(rows_view(rows@), key),
        p <= rows@.len(),
{
    let ghost rv = rows_view(rows@);
    let ghost pred = |r: SidebarRowV| r.key < key;
    let mut i: usize = 0;
    while i < rows.len()
        invariant
            i <= rows.len(),
            rv == rows_view(rows@),
            pred == (|r: SidebarRowV| r.key < key),
            forall|j: int| 0 <= j < i ==> !pred(#[trigger] rv[j]),
        decreases rows.len() - i,
    {
        if rows[i].key < key {
            proof {
                lemma_first_index(rv, pred, i as int);
            }
            return i;
        }
        i = i + 1;
    }
    proof {
        lemma_first_index(rv, pred, rv.len() as int);
    }
    i
}

/// Inserting at `insert_pos` keeps a list ordered.
pub proof fn lemma_insert_sorted(s: Seq<SidebarRowV>, x: SidebarRowV)
    requires
        sorted_desc(s),
    ensures
        sorted_desc(s.insert(insert_pos(s, x.key), x)),
        0 <= insert_pos(s, x.key) <= s.len(),
{
    let pred = |r: SidebarRowV| r.key < x.key;
    crate::seqs::lemma_first_index_found(s, pred);
    let p = insert_pos(s, x.key);
    let t = s.insert(p, x);
    assert forall|i: int, j: int| 0 <= i < j < t.len() implies #[trigger] t[i].key >= #[trigger] t[j].key by {
        if j < p {
        } else if j == p {
            assert(!pred(s[i]));
        } else if i < p {
            assert(!pred(s[i]));
            if j - 1 >= p {
                assert(pred(s[p]));
                assert(s[p].key >= s[j - 1].key || p == j - 1);
            }
        } else if i == p {
            assert(pred(s[p]));
            assert(s[p].key >= s[j - 1].key || p == j - 1);
        } else {
            assert(s[i - 1].key >= s[j - 1].key);
        }
    }
}

/// Sorting by key gives an ordered list of the same length, whose rows are
/// all among the objects `w` when those of `s` are.
pub proof fn lemma_sort_by_key(s: Seq<SidebarRowV>, w: Seq<u64>)
    ensures
        sort_by_key(s).len() == s.len(),
        sorted_desc(sort_by_key(s)),
        all_watched(s, w) ==> all_watched(sort_by_key(s), w),
    decreases s.len(),
{
    if s.len() > 0 {
        let d = s.drop_last();
        lemma_sort_by_key(d, w);
        let t = sort_by_key(d);
        let x = s.last();
        lemma_insert_sorted(t, x);
        let p = insert_pos(t, x.key);
        if all_watched(s, w) {
            assert forall|i: int| 0 <= i < d.len() implies w.contains(#[trigger] d[i].obj) by {
                assert(d[i] == s[i]);
            }
            let u = t.insert(p, x);
            assert forall|i: int| 0 <= i < u.len() implies w.contains(#[trigger] u[i].obj) by {
                if i < p {
                    assert(u[i] == t[i]);
                } else if i == p {
                    assert(u[i] == s[s.len() - 1]);
                } else {
                    assert(u[i] == t[i - 1]);
                }
            }
        }
    }
}

/// A list already ordered by key is its own sort.
pub proof fn lemma_sort_of_sorted(s: Seq<SidebarRowV>)
    requires
        sorted_desc(s),
    ensures
        sort_by_key(s) == s,
    decreases s.len(),
{
    if s.len() > 0 {
        let d = s.drop_last();
        assert(sorted_desc(d)) by {
            assert forall|i: int, j: int| 0 <= i < j < d.len() implies #[trigger] d[i].key >= #[trigger] d[j].key by {
                assert(d[i] == s[i] && d[j] == s[j]);
            }
        }
        lemma_sort_of_sorted(d);
        let x = s.last();
        let pred = |r: SidebarRowV| r.key < x.key;
        assert forall|j: int| 0 <= j < d.len() implies !pred(#[trigger] d[j]) by {
            assert(d[j] == s[j]);
            assert(s[j].key >= s[s.len() - 1].key);
        }
        crate::seqs::lemma_first_index(d, pred, d.len() as int);
        assert(d.insert(d.len() as int, x) =~= s);
    }
}

proof fn lemma_update_same_obj(s: Seq<SidebarRowV>, i: int, x: SidebarRowV, w: Seq<u64>)
    requires
        all_watched(s, w),
        0 <= i < s.len(),
        x.obj == s[i].obj,
    ensures
        all_watched(s.update(i, x), w),
{
    let u = s.update(i, x);
    assert forall|k: int| 0 <= k < u.len() implies w.contains(#[trigger] u[k].obj) by {
        if k != i {
            assert(u[k] == s[k]);
        }
    }
}

proof fn lemma_update_same_key(s: Seq<SidebarRowV>, i: int, x: SidebarRowV)
    requires
        sorted_desc(s),
        0 <= i < s.len(),
        x.key == s[i].key,
    ensures
        sorted_desc(s.update(i, x)),
{
    let u = s.update(i, x);
    assert forall|a: int, b: int| 0 <= a < b < u.len() implies #[trigger] u[a].key >= #[trigger] u[b].key by {
        assert(s[a].key >= s[b].key);
    }
}

proof fn lemma_remove_watched(s: Seq<SidebarRowV>, p: int, w: Seq<u64>)
    requires
        all_watched(s, w),
        0 <= p < s.len(),
    ensures
        all_watched(s.remove(p), w),
{
    let u = s.remove(p);
    assert forall|k: int| 0 <= k < u.len() implies w.contains(#[trigger] u[k].obj) by {
        if k < p {
            assert(u[k] == s[k]);
        } else {
            assert(u[k] == s[k + 1]);
        }
    }
}

/// Sorts the rows by key, greatest first, keeping rows of equal keys in
/// their order.
fn sort_rows(list: &mut Vec<SidebarRow>)
    ensures
        rows_view(final(list)@) == sort_by_key(rows_view(old(list)@)),
{
    let ghost rv = rows_view(list@);
    let mut out: Vec<SidebarRow> = Vec::new();
    let mut k: usize = 0;
    proof {
        assert(rv.take(0) =~= Seq::<SidebarRowV>::empty());
        assert(rows_view(out@) =~= Seq::<SidebarRowV>::empty());
    }
    while k < list.len()
        invariant
            k <= list.len(),
            rv == rows_view(list@),
            rv.len() == list@.len(),
            rows_view(out@) == sort_by_key(rv.take(k as int)),
        decreases list.len() - k,
    {
        let row = list[k].duplicate();
        let p = find_insert_pos(&out, row.key);
        proof {
            lemma_rows_insert(out@, p as int, row);
            let tk = rv.take(k as int + 1);
            assert(tk.drop_last() =~= rv.take(k as int));
            assert(tk.last() == rv[k as int]);
            assert(rv[k as int] == list@[k as int]@);
        }
        out.insert(p, row);
        k = k + 1;
    }
    proof {
        assert(rv.take(rv.len() as int) =~= rv);
    }
    *list = out;
}

/// Whether `x` is among `v`.
fn holds_obj(v: &Vec<u64>, x: u64) -> (r: bool)
    ensures
        r == v@.contains(x),
{
    let mut i: usize = 0;
    while i < v.len()
        invariant
            i <= v.len(),
            forall|j: int| 0 <= j < i ==> v@[j] != x,
        decreases v.len() - i,
    {
        if v[i] == x {
            assert(v@[i as int] == x);
            return true;
        }
        i = i + 1;
    }
    false
}

/// Removing an element keeps a list ordered.
pub proof fn lemma_remove_sorted(s: Seq<SidebarRowV>, p: int)
    requires
        sorted_desc(s),
        0 <= p < s.len(),
    ensures
        sorted_desc(s.remove(p)),
{
    let t = s.remove(p);
    assert forall|i: int, j: int| 0 <= i < j < t.len() implies #[trigger] t[i].key >= #[trigger] t[j].key by {
        let a = if i < p { i } else { i + 1 };
        let b = if j < p { j } else { j + 1 };
        assert(t[i] == s[a]);
        assert(t[j] == s[b]);
    }
}

proof fn lemma_rows_push(v: Seq<SidebarRow>, x: SidebarRow)
    ensures
        rows_view(v.push(x)) == rows_view(v).push(x@),
{
    assert(rows_view(v.push(x)) =~= rows_view(v).push(x@));
}

proof fn lemma_rows_insert(v: Seq<SidebarRow>, i: int, x: SidebarRow)
    requires
        0 <= i <= v.len(),
    ensures
        rows_view(v.insert(i, x)) == rows_view(v).insert(i, x@),
{
    assert(rows_view(v.insert(i, x)) =~= rows_view(v).insert(i, x@));
}

proof fn lemma_rows_remove(v: Seq<SidebarRow>, i: int)
    requires
        0 <= i < v.len(),
    ensures
        rows_view(v.remove(i)) == rows_view(v).remove(i),
{
    assert(rows_view(v.remove(i)) =~= rows_view(v).remove(i));
}

proof fn lemma_rows_update(v: Seq<SidebarRow>, i: int, x: SidebarRow)
    requires
        0 <= i < v.len(),
    ensures
        rows_view(v.update(i, x)) == rows_view(v).update(i, x@),
{
    assert(rows_view(v.update(i, x)) =~= rows_view(v).update(i, x@));
}

/// Removes the first row of room `id` from `list`.
fn remove_first(list: &mut Vec<SidebarRow>, id: &str)
    ensures
        rows_view(final(list)@) == remove_at(rows_view(old(list)@), position_of(rows_view(old(list)@), id@)),
{
    if list.len() <= u32::MAX as usize {
        if let Some(p) = get_position_by_id(list, id) {
            proof {
                crate::seqs::lemma_first_index_found(rows_view(list@), |r: SidebarRowV| r.room_id == Some(id@));
                lemma_rows_remove(list@, p as int);
            }
            list.remove(p as usize);
        }
    } else {
        let ghost rv = rows_view(list@);
        let ghost pred = |r: SidebarRowV| r.room_id == Some(id@);
        let mut i: usize = 0;
        while i < list.len()
            invariant
                i <= list.len(),
                rv == rows_view(list@),
                rv == rows_view(old(list)@),
                pred == (|r: SidebarRowV| r.room_id == Some(id@)),
                forall|j: int| 0 <= j < i ==> !pred(#[trigger] rv[j]),
            decreases list.len() - i,
        {
            let same = match &list[i].room_id {
                Some(r) => str_eq(r.as_str(), id),
                None => false,
            };
            if same {
                proof {
                    lemma_first_index(rv, pred, i as int);
                    lemma_rows_remove(list@, i as int);
                }
                list.remove(i);
                return;
            }
            i = i + 1;
        }
        proof {
            lemma_first_index(rv, pred, rv.len() as int);
        }
    }
}

impl Sidebar {
    /// A new row for `room` goes to the favorites, else to the
    /// invitations, else among the normal rooms, where it re-sorts them
    /// whenever its key changes; the store then holds that row for the room.
    /// In ordered normal rooms the row takes the place its key gives it,
    /// after every row whose key is not smaller; in rooms that are out of
    /// order (after a row was dropped there) it goes in at some place.
    /// Rows are told apart by an object number, the next one taken, which
    /// starts again from 0 after the largest.
    pub fn add_room(&mut self, room: &Room)
        ensures
            final(self).next_obj == if old(self).next_obj == u64::MAX { 0 } else { (old(self).next_obj + 1) as u64 },
            room.fav ==> rows_view(final(self).favorites@) == rows_view(old(self).favorites@).push(row_of(room, old(self).next_obj))
                && final(self).invites@ == old(self).invites@ && final(self).rooms@ == old(self).rooms@
                && final(self).resorting@ == old(self).resorting@,
            !room.fav && room.inv ==> rows_view(final(self).invites@) == rows_view(old(self).invites@).push(row_of(room, old(self).next_obj))
                && final(self).favorites@ == old(self).favorites@ && final(self).rooms@ == old(self).rooms@
                && final(self).resorting@ == old(self).resorting@,
            !room.fav && !room.inv ==> (exists|p: int| 0 <= p <= old(self).rooms@.len()
                && rows_view(final(self).rooms@) == #[trigger] rows_view(old(self).rooms@).insert(p, row_of(room, old(self).next_obj)))
                && final(self).favorites@ == old(self).favorites@ && final(self).invites@ == old(self).invites@
                && final(self).resorting@ == old(self).resorting@.push(old(self).next_obj),
            !room.fav && !room.inv && old(self).wf() ==> rows_view(final(self).rooms@) == rows_view(old(self).rooms@).insert(
                insert_pos(rows_view(old(self).rooms@), room_key(room)),
                row_of(room, old(self).next_obj),
            ),
            final(self).low_priority@ == old(self).low_priority@,
            store_view(final(self).store@) == store_insert(store_view(old(self).store@), room.id@, old(self).next_obj),
            old(self).wf() ==> final(self).wf(),
            old(self).ordered() ==> final(self).ordered(),
    {
        let obj = self.next_obj;
        self.next_obj = if obj == u64::MAX { 0 } else { obj + 1 };
        let row = SidebarRow::from_room(room, obj);
        if room.fav {
            proof {
                lemma_rows_push(self.favorites@, row);
            }
            self.favorites.push(row);
        } else if room.inv {
            proof {
                lemma_rows_push(self.invites@, row);
            }
            self.invites.push(row);
        } else {
            let p = find_insert_pos(&self.rooms, row.key);
            let ghost before = rows_view(self.rooms@);
            let ghost w = self.resorting@;
            proof {
                lemma_rows_insert(self.rooms@, p as int, row);
                if sorted_desc(before) {
                    lemma_insert_sorted(before, row@);
                }
            }
            self.rooms.insert(p, row);
            self.resorting.push(obj);
            proof {
                let after = rows_view(self.rooms@);
                assert(after == before.insert(p as int, row@));
                if all_watched(before, w) {
                    assert forall|k: int| 0 <= k < after.len() implies self.resorting@.contains(#[trigger] after[k].obj) by {
                        if k < p {
                            assert(after[k] == before[k]);
                            assert(w.contains(before[k].obj));
                            let j = choose|j: int| 0 <= j < w.len() && w[j] == before[k].obj;
                            assert(self.resorting@[j] == w[j]);
                        } else if k == p {
                            assert(self.resorting@[w.len() as int] == obj);
                        } else {
                            assert(after[k] == before[k - 1]);
                            assert(w.contains(before[k - 1].obj));
                            let j = choose|j: int| 0 <= j < w.len() && w[j] == before[k - 1].obj;
                            assert(self.resorting@[j] == w[j]);
                        }
                    }
                }
            }
        }
        let ghost old_store = store_view(self.store@);
        match store_position(&self.store, room.id.as_str()) {
            Some(i) => {
                self.store.set(i, (room.id.clone(), obj));
                proof {
                    assert(store_view(self.store@) =~= old_store.update(i as int, (room.id@, obj)));
                }
            },
            None => {
                self.store.push((room.id.clone(), obj));
                proof {
                    assert(store_view(self.store@) =~= old_store.push((room.id@, obj)));
                }
            },
        }
    }

    /// Removes the first row of the room from each list, and the room from the store.
    pub fn remove_room(&mut self, id: &str)
        ensures
            old(self).wf() ==> final(self).wf(),
            old(self).ordered() ==> final(self).ordered(),
            final(self).resorting@ == old(self).resorting@,
            rows_view(final(self).favorites@) == remove_at(rows_view(old(self).favorites@), position_of(rows_view(old(self).favorites@), id@)),
            rows_view(final(self).invites@) == remove_at(rows_view(old(self).invites@), position_of(rows_view(old(self).invites@), id@)),
            rows_view(final(self).rooms@) == remove_at(rows_view(old(self).rooms@), position_of(rows_view(old(self).rooms@), id@)),
            final(self).low_priority@ == old(self).low_priority@,
            store_view(final(self).store@) == store_remove(store_view(old(self).store@), id@),
            final(self).next_obj == old(self).next_obj,
    {
        remove_first(&mut self.favorites, id);
        remove_first(&mut self.invites, id);
        let ghost before = rows_view(self.rooms@);
        remove_first(&mut self.rooms, id);
        proof {
            crate::seqs::lemma_first_index_found(before, |r: SidebarRowV| r.room_id == Some(id@));
            if let Some(p) = position_of(before, id@) {
                if sorted_desc(before) {
                    lemma_remove_sorted(before, p);
                }
                if all_watched(before, self.resorting@) {
                    lemma_remove_watched(before, p, self.resorting@);
                }
            }
        }
        let ghost old_store = store_view(self.store@);
        if let Some(i) = store_position(&self.store, id) {
            self.store.remove(i);
            proof {
                assert(store_view(self.store@) =~= old_store.remove(i as int));
            }
        }
    }

    /// Empties every list and the store.
    pub fn remove_all(&mut self)
        ensures
            final(self).ordered(),
            final(self).invites@.len() == 0 && final(self).favorites@.len() == 0
                && final(self).rooms@.len() == 0 && final(self).low_priority@.len() == 0
                && final(self).store@.len() == 0 && final(self).resorting@.len() == 0,
            final(self).next_obj == old(self).next_obj,
    {
        self.invites.clear();
        self.favorites.clear();
        self.rooms.clear();
        self.low_priority.clear();
        self.store.clear();
        self.resorting.clear();
    }
}


/// A row after `update_room` set it from `room`.
pub open spec fn updated_row(r: SidebarRowV, room: &Room) -> SidebarRowV {
    SidebarRowV {
        name: opt_view(room.name),
        avatar: opt_view(room.avatar),
        notifications: notifications_text(room),
        direct: room.direct,
        bold: false,
        highlight: room.highlight > 0 || room.inv,
        key: room_key(room),
        ..r
    }
}

/// The lists of favorites, invitations and normal rooms once the row that
/// is object `obj`, in the first of them that holds it, was set from
/// `room`, and whether that changed the row's key.
pub open spec fn update_lists(
    fav: Seq<SidebarRowV>,
    inv: Seq<SidebarRowV>,
    rms: Seq<SidebarRowV>,
    obj: u64,
    room: &Room,
) -> (Seq<SidebarRowV>, Seq<SidebarRowV>, Seq<SidebarRowV>, bool) {
    match position_of_obj(fav, obj) {
        Some(i) => (fav.update(i, updated_row(fav[i], room)), inv, rms, fav[i].key != room_key(room)),
        None => match position_of_obj(inv, obj) {
            Some(i) => (fav, inv.update(i, updated_row(inv[i], room)), rms, inv[i].key != room_key(room)),
            None => match position_of_obj(rms, obj) {
                Some(i) => (fav, inv, rms.update(i, updated_row(rms[i], room)), rms[i].key != room_key(room)),
                None => (fav, inv, rms, false),
            },
        },
    }
}

/// The object the store holds for `id`.
fn store_get(store: &Vec<(String, u64)>, id: &str) -> (r: Option<u64>)
    ensures
        r == store_lookup(store_view(store@), id@),
{
    match store_position(store, id) {
        Some(i) => {
            proof {
                crate::seqs::lemma_first_index_found(store_view(store@), key_is(id@));
            }
            Some(store[i].1)
        },
        None => None,
    }
}

fn apply_room(row: &mut SidebarRow, room: &Room) -> (key_changed: bool)
    ensures
        final(row)@ == updated_row(old(row)@, room),
        key_changed == (old(row)@.key != room_key(room)),
{
    let n = notifications_of(room);
    row.change_name(as_opt_str(&room.name));
    row.change_avatar(as_opt_str(&room.avatar));
    row.change_notifications(as_opt_str(&n));
    row.change_direct(room.direct);
    row.change_bold(false);
    row.change_hightlight(room.highlight > 0 || room.inv);
    row.change_key(key_of(room))
}

/// Sets the row at `i` from `room`; whether its key changed.
fn update_in_place(list: &mut Vec<SidebarRow>, i: usize, room: &Room) -> (key_changed: bool)
    requires
        i < old(list)@.len(),
    ensures
        rows_view(final(list)@) == rows_view(old(list)@).update(i as int, updated_row(rows_view(old(list)@)[i as int], room)),
        key_changed == (rows_view(old(list)@)[i as int].key != room_key(room)),
{
    let mut row = list[i].duplicate();
    let key_changed = apply_room(&mut row, room);
    proof {
        lemma_rows_update(list@, i as int, row);
    }
    list.set(i, row);
    key_changed
}

/// The row is held by the store for some room.
pub open spec fn in_store(store: Seq<(Seq<char>, u64)>, obj: u64) -> bool {
    exists|i: int| 0 <= i < store.len() && (#[trigger] store[i]).1 == obj
}

/// A row after `filter(f)`: a named row held by the store is hidden exactly
/// when its lowercased name does not contain the lowercased filter.
pub open spec fn filtered_row(r: SidebarRowV, store: Seq<(Seq<char>, u64)>, f: Seq<char>) -> SidebarRowV {
    if in_store(store, r.obj) && r.name is Some {
        SidebarRowV { hidden: !seq_contains(lowercase(r.name->0), lowercase(f)), ..r }
    } else {
        r
    }
}

fn held(store: &Vec<(String, u64)>, obj: u64) -> (r: bool)
    ensures
        r == in_store(store_view(store@), obj),
{
    let ghost sv = store_view(store@);
    let mut i: usize = 0;
    while i < store.len()
        invariant
            i <= store.len(),
            sv == store_view(store@),
            forall|j: int| 0 <= j < i ==> (#[trigger] sv[j]).1 != obj,
        decreases store.len() - i,
    {
        if store[i].1 == obj {
            assert(sv[i as int].1 == obj);
            return true;
        }
        i = i + 1;
    }
    false
}

fn filter_list(list: &mut Vec<SidebarRow>, store: &Vec<(String, u64)>, f: &str)
    ensures
        rows_view(final(list)@) == rows_view(old(list)@).map_values(
            |r: SidebarRowV| filtered_row(r, store_view(store@), f@),
        ),
{
    let lf = to_lowercase(f);
    let ghost before = rows_view(list@);
    let ghost g = |r: SidebarRowV| filtered_row(r, store_view(store@), f@);
    let mut i: usize = 0;
    while i < list.len()
        invariant
            i <= list.len(),
            list@.len() == before.len(),
            before.len() == old(list)@.len(),
            before == rows_view(old(list)@),
            lf@ == lowercase(f@),
            forall|k: int| 0 <= k < i ==> #[trigger] rows_view(list@)[k] == filtered_row(before[k], store_view(store@), f@),
            forall|k: int| i <= k < list@.len() ==> #[trigger] rows_view(list@)[k] == before[k],
        decreases list.len() - i,
    {
        assert(rows_view(list@)[i as int] == list@[i as int]@);
        let mut row = list[i].duplicate();
        assert(row@ == before[i as int]);
        let hold = held(store, row.obj);
        let hide: Option<bool> = match &row.name {
            Some(name) => {
                let ln = to_lowercase(name.as_str());
                Some(!contains(ln.as_str(), lf.as_str()))
            },
            None => None,
        };
        if hold {
            if let Some(h) = hide {
                row.hidden = h;
            }
        }
        assert(row@ == filtered_row(before[i as int], store_view(store@), f@));
        proof {
            lemma_rows_update(list@, i as int, row);
        }
        list.set(i, row);
        i = i + 1;
    }
    proof {
        assert(rows_view(list@) =~= before.map_values(g));
    }
}

impl Sidebar {
    /// Sets the row the store holds for the room from the room. When that
    /// changes the key of a row that was added among the normal rooms, the
    /// normal rooms are sorted again by key, greatest first, rows of equal
    /// keys keeping their order.
    pub fn update_room(&mut self, room: &Room)
        ensures
            final(self).store@ == old(self).store@,
            final(self).next_obj == old(self).next_obj,
            final(self).resorting@ == old(self).resorting@,
            final(self).low_priority@ == old(self).low_priority@,
            store_lookup(store_view(old(self).store@), room.id@) is None ==> final(self).favorites@ == old(self).favorites@
                && final(self).invites@ == old(self).invites@ && final(self).rooms@ == old(self).rooms@,
            store_lookup(store_view(old(self).store@), room.id@) matches Some(obj) ==> ({
                let (f, i, r, changed) = update_lists(
                    rows_view(old(self).favorites@),
                    rows_view(old(self).invites@),
                    rows_view(old(self).rooms@),
                    obj,
                    room,
                );
                &&& rows_view(final(self).favorites@) == f
                &&& rows_view(final(self).invites@) == i
                &&& rows_view(final(self).rooms@) == if changed && old(self).resorting@.contains(obj) {
                    sort_by_key(r)
                } else {
                    r
                }
            }),
            old(self).ordered() ==> final(self).ordered(),
    {
        let obj = match store_get(&self.store, room.id.as_str()) {
            Some(o) => o,
            None => return,
        };
        let ghost fav = rows_view(self.favorites@);
        let ghost inv = rows_view(self.invites@);
        let ghost rms = rows_view(self.rooms@);
        let ghost w = self.resorting@;
        let changed = if let Some(i) = position_by_obj(&self.favorites, obj) {
            update_in_place(&mut self.favorites, i, room)
        } else if let Some(i) = position_by_obj(&self.invites, obj) {
            update_in_place(&mut self.invites, i, room)
        } else if let Some(i) = position_by_obj(&self.rooms, obj) {
            let c = update_in_place(&mut self.rooms, i, room);
            proof {
                crate::seqs::lemma_first_index_found(rms, |r: SidebarRowV| r.obj == obj);
                if all_watched(rms, w) {
                    assert(w.contains(rms[i as int].obj));
                }
                if c == false && sorted_desc(rms) {
                    lemma_update_same_key(rms, i as int, updated_row(rms[i as int], room));
                }
                if all_watched(rms, w) {
                    lemma_update_same_obj(rms, i as int, updated_row(rms[i as int], room), w);
                }
            }
            c
        } else {
            return;
        };
        let ghost r = rows_view(self.rooms@);
        if changed && holds_obj(&self.resorting, obj) {
            sort_rows(&mut self.rooms);
            proof {
                lemma_sort_by_key(r, w);
            }
        }
    }

    /// Hides the named rows held by the store whose name does not
    /// contain the filter text, ignoring case, and shows the others.
    pub fn filter(&mut self, filter: &str)
        ensures
            old(self).wf() ==> final(self).wf(),
            old(self).ordered() ==> final(self).ordered(),
            final(self).resorting@ == old(self).resorting@,
            final(self).store@ == old(self).store@,
            final(self).next_obj == old(self).next_obj,
            final(self).low_priority@ == old(self).low_priority@,
            rows_view(final(self).favorites@) == rows_view(old(self).favorites@).map_values(
                |r: SidebarRowV| filtered_row(r, store_view(old(self).store@), filter@),
            ),
            rows_view(final(self).invites@) == rows_view(old(self).invites@).map_values(
                |r: SidebarRowV| filtered_row(r, store_view(old(self).store@), filter@),
            ),
            rows_view(final(self).rooms@) == rows_view(old(self).rooms@).map_values(
                |r: SidebarRowV| filtered_row(r, store_view(old(self).store@), filter@),
            ),
    {
        filter_list(&mut self.favorites, &self.store, filter);
        filter_list(&mut self.invites, &self.store, filter);
        let ghost before = rows_view(self.rooms@);
        filter_list(&mut self.rooms, &self.store, filter);
        proof {
            let after = rows_view(self.rooms@);
            if sorted_desc(before) {
                assert forall|a: int, b: int| 0 <= a < b < after.len() implies #[trigger] after[a].key >= #[trigger] after[b].key by {
                    assert(before[a].key >= before[b].key);
                }
            }
            if all_watched(before, self.resorting@) {
                assert forall|k: int| 0 <= k < after.len() implies self.resorting@.contains(#[trigger] after[k].obj) by {
                    assert(after[k].obj == before[k].obj);
                }
            }
        }
    }
}

/// A room's row is ordered by the date of the room's newest message: a room
/// without messages has key 0, a message appended to a room makes its date
/// (in seconds, as an unsigned number) the key whatever came before, and
/// appending a message no older than the last one never lowers the key.
pub proof fn lemma_row_key_follows_last_message(r1: Room, r2: Room, msg: Message, obj: u64)
    requires
        r2.messages@ == r1.messages@.push(msg),
    ensures
        r1.messages@.len() == 0 ==> row_of(&r1, obj).key == 0,
        row_of(&r2, obj).key == msg.date.secs as u64,
        r1.messages@.len() > 0 && 0 <= r1.messages@.last().date.secs <= msg.date.secs
            ==> row_of(&r2, obj).key >= row_of(&r1, obj).key,
{
    assert(r2.messages@.last() == msg);
}

/// Filtering ignores case: two filter texts that lowercase alike hide and
/// show the same rows.
pub proof fn lemma_filter_ignores_case(rows: Seq<SidebarRowV>, store: Seq<(Seq<char>, u64)>, f: Seq<char>, g: Seq<char>)
    requires
        lowercase(f) == lowercase(g),
    ensures
        rows.map_values(|r: SidebarRowV| filtered_row(r, store, f))
            == rows.map_values(|r: SidebarRowV| filtered_row(r, store, g)),
{
    assert(rows.map_values(|r: SidebarRowV| filtered_row(r, store, f))
        =~= rows.map_values(|r: SidebarRowV| filtered_row(r, store, g)));
}

/// A filter shows every row held by the store whose name is the filter text
/// up to case, and a row it hides has a name that does not contain the lowercased filter
/// once lowercased; rows without a name or not held by the store are left as
/// they were.
pub proof fn lemma_filter_shows_matching_names(r: SidebarRowV, store: Seq<(Seq<char>, u64)>, f: Seq<char>)
    ensures
        in_store(store, r.obj) && (r.name matches Some(n) && lowercase(n) == lowercase(f))
            ==> !filtered_row(r, store, f).hidden,
        filtered_row(r, store, f).hidden && !r.hidden ==> (r.name is Some
            && !seq_contains(lowercase(r.name->0), lowercase(f))),
        (r.name is None || !in_store(store, r.obj)) ==> filtered_row(r, store, f) == r,
        filtered_row(r, store, f) == (SidebarRowV { hidden: filtered_row(r, store, f).hidden, ..r }),
{
    if let Some(n) = r.name {
        if lowercase(n) == lowercase(f) && in_store(store, r.obj) {
            let l = lowercase(n);
            let lf = lowercase(f);
            assert(l.subrange(0int, 0int + lf.len()) =~= lf);
            assert(seq_contains(l, lf));
        }
    }
}

/// A room's row added to a list where no row stood for the room, then the
/// room removed (`add_room`, then `remove_room`): the list is as it was.
pub proof fn lemma_row_add_remove(list: Seq<SidebarRowV>, p: int, x: SidebarRowV, id: Seq<char>)
    requires
        0 <= p <= list.len(),
        x.room_id == Some(id),
        position_of(list, id) is None,
    ensures
        remove_at(list.insert(p, x), position_of(list.insert(p, x), id)) == list,
{
    let t = list.insert(p, x);
    crate::seqs::lemma_first_index_found(list, |r: SidebarRowV| r.room_id == Some(id));
    assert forall|j: int| 0 <= j < p implies !((|r: SidebarRowV| r.room_id == Some(id))(#[trigger] t[j])) by {
        assert(t[j] == list[j]);
    }
    lemma_first_index(t, |r: SidebarRowV| r.room_id == Some(id), p);
    assert(t.remove(p) =~= list);
}

/// A room given an object in a store that held none for it, then removed
/// from it (`add_room`, then `remove_room`): the store is as it was.
pub proof fn lemma_store_add_remove(store: Seq<(Seq<char>, u64)>, id: Seq<char>, obj: u64)
    requires
        store_lookup(store, id) is None,
    ensures
        store_remove(store_insert(store, id, obj), id) == store,
{
    let pred = key_is(id);
    crate::seqs::lemma_first_index_found(store, pred);
    let t = store.push((id, obj));
    assert forall|j: int| 0 <= j < store.len() implies !pred(#[trigger] t[j]) by {
        assert(t[j] == store[j]);
    }
    lemma_first_index(t, pred, store.len() as int);
    assert(t.remove(store.len() as int) =~= store);
}

/// After `add_room`, the store gives the new row's object for the room.
pub proof fn lemma_store_insert_lookup(store: Seq<(Seq<char>, u64)>, id: Seq<char>, obj: u64)
    ensures
        store_lookup(store_insert(store, id, obj), id) == Some(obj),
{
    let pred = key_is(id);
    crate::seqs::lemma_first_index_found(store, pred);
    match first_index(store, pred) {
        Some(i) => {
            let t = store.update(i, (id, obj));
            assert forall|j: int| 0 <= j < i implies !pred(#[trigger] t[j]) by {
                assert(t[j] == store[j]);
            }
            lemma_first_index(t, pred, i);
        },
        None => {
            let t = store.push((id, obj));
            assert forall|j: int| 0 <= j < store.len() implies !pred(#[trigger] t[j]) by {
                assert(t[j] == store[j]);
            }
            lemma_first_index(t, pred, store.len() as int);
        },
    }
}

/// The four lists of the sidebar.
#[derive(PartialEq, Eq, Structural, Clone, Copy, Debug)]
pub enum RoomCategory {
    Invites,
    Favorites,
    Rooms,
    LowPriority,
}

/// The rows of the list `c`.
pub open spec fn list_of(s: Sidebar, c: RoomCategory) -> Seq<SidebarRowV> {
    match c {
        RoomCategory::Invites => rows_view(s.invites@),
        RoomCategory::Favorites => rows_view(s.favorites@),
        RoomCategory::Rooms => rows_view(s.rooms@),
        RoomCategory::LowPriority => rows_view(s.low_priority@),
    }
}

/// Whether a row dragged from place `position` of list `from` and dropped on
/// list `to` moves: the invitations take no drops, a drop on the list the
/// row came from changes nothing, and the row must be there.
pub open spec fn drop_moves(s: Sidebar, from: RoomCategory, position: int, to: RoomCategory) -> bool {
    &&& to != RoomCategory::Invites
    &&& from != to
    &&& 0 <= position < list_of(s, from).len()
}

proof fn lemma_rows_insert_front(v: Seq<SidebarRow>, x: SidebarRow)
    ensures
        rows_view(v.insert(0, x)) == seq![x@] + rows_view(v),
{
    assert(rows_view(v.insert(0, x)) =~= seq![x@] + rows_view(v));
}

impl Sidebar {
    fn take_row(&mut self, from: RoomCategory, position: usize) -> (row: SidebarRow)
        requires
            position < list_of(*old(self), from).len(),
        ensures
            row@ == list_of(*old(self), from)[position as int],
            list_of(*final(self), from) == list_of(*old(self), from).remove(position as int),
            forall|c: RoomCategory| c != from ==> list_of(*final(self), c) == list_of(*old(self), c),
            final(self).store == old(self).store,
            final(self).next_obj == old(self).next_obj,
            final(self).resorting == old(self).resorting,
    {
        proof {
            match from {
                RoomCategory::Invites => lemma_rows_remove(self.invites@, position as int),
                RoomCategory::Favorites => lemma_rows_remove(self.favorites@, position as int),
                RoomCategory::Rooms => lemma_rows_remove(self.rooms@, position as int),
                RoomCategory::LowPriority => lemma_rows_remove(self.low_priority@, position as int),
            }
        }
        match from {
            RoomCategory::Invites => self.invites.remove(position),
            RoomCategory::Favorites => self.favorites.remove(position),
            RoomCategory::Rooms => self.rooms.remove(position),
            RoomCategory::LowPriority => self.low_priority.remove(position),
        }
    }

    fn put_first(&mut self, to: RoomCategory, row: SidebarRow)
        ensures
            list_of(*final(self), to) == seq![row@] + list_of(*old(self), to),
            forall|c: RoomCategory| c != to ==> list_of(*final(self), c) == list_of(*old(self), c),
            final(self).store == old(self).store,
            final(self).next_obj == old(self).next_obj,
            final(self).resorting == old(self).resorting,
    {
        proof {
            match to {
                RoomCategory::Invites => lemma_rows_insert_front(self.invites@, row),
                RoomCategory::Favorites => lemma_rows_insert_front(self.favorites@, row),
                RoomCategory::Rooms => lemma_rows_insert_front(self.rooms@, row),
                RoomCategory::LowPriority => lemma_rows_insert_front(self.low_priority@, row),
            }
        }
        match to {
            RoomCategory::Invites => self.invites.insert(0, row),
            RoomCategory::Favorites => self.favorites.insert(0, row),
            RoomCategory::Rooms => self.rooms.insert(0, row),
            RoomCategory::LowPriority => self.low_priority.insert(0, row),
        }
    }

    fn list_len(&self, c: RoomCategory) -> (n: usize)
        ensures
            n == list_of(*self, c).len(),
    {
        match c {
            RoomCategory::Invites => self.invites.len(),
            RoomCategory::Favorites => self.favorites.len(),
            RoomCategory::Rooms => self.rooms.len(),
            RoomCategory::LowPriority => self.low_priority.len(),
        }
    }

    /// A row dragged from place `position` of list `from` and dropped on
    /// list `to`: where it moves (see [`drop_moves`]) it leaves its list and
    /// becomes the first row of `to`; the other lists and the store stay.
    /// A drop on any list but the normal rooms keeps those in order; one on
    /// them puts the row first whatever its key.
    pub fn move_row(&mut self, from: RoomCategory, position: usize, to: RoomCategory)
        ensures
            !drop_moves(*old(self), from, position as int, to) ==> *final(self) == *old(self),
            drop_moves(*old(self), from, position as int, to) ==> {
                &&& list_of(*final(self), from) == list_of(*old(self), from).remove(position as int)
                &&& list_of(*final(self), to) == seq![list_of(*old(self), from)[position as int]] + list_of(*old(self), to)
                &&& forall|c: RoomCategory| c != from && c != to ==> list_of(*final(self), c) == list_of(*old(self), c)
                &&& final(self).store == old(self).store
                &&& final(self).next_obj == old(self).next_obj
                &&& final(self).resorting == old(self).resorting
            },
            old(self).wf() && to != RoomCategory::Rooms ==> final(self).wf(),
            old(self).ordered() && to != RoomCategory::Rooms ==> final(self).ordered(),
    {
        if to == RoomCategory::Invites || from == to {
            return;
        }
        if position >= self.list_len(from) {
            return;
        }
        let ghost before = *self;
        let row = self.take_row(from, position);
        let ghost mid = *self;
        self.put_first(to, row);
        proof {
            assert(list_of(*self, from) == list_of(mid, from));
            if before.wf() && to != RoomCategory::Rooms {
                if from == RoomCategory::Rooms {
                    lemma_remove_sorted(rows_view(before.rooms@), position as int);
                    if before.ordered() {
                        lemma_remove_watched(rows_view(before.rooms@), position as int, before.resorting@);
                    }
                } else {
                    assert(list_of(*self, RoomCategory::Rooms) == list_of(before, RoomCategory::Rooms));
                }
            }
        }
    }
}

} // verus!
