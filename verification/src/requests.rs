//! Requests to the homeserver's API and what their answers give: the URLs of
//! the requests, the reading of an answer, and the paging through a room's
//! history.
use vstd::prelude::*;
use crate::json::{Json, JsonV, view_items, lemma_view_items};
use crate::rooms::{sync_messages, sync_room_messages};
use crate::text::{concat, i64_to_string, int_decimal};
use crate::types::{LocalTime, Message, MessageV, opt_view};

verus! {

/// The query parameters as pairs of texts.
pub open spec fn query_view(p: Seq<(String, String)>) -> Seq<(Seq<char>, Seq<char>)> {
    p.map_values(|q: (String, String)| (q.0@, q.1@))
}

/// What `url::Url` makes of the URL `base` joined with `path`, its query
/// then replaced by the pairs `params` in order, as text; `None` where
/// `base` is no URL or the join fails.
pub uninterp spec fn joined_url(base: Seq<char>, path: Seq<char>, params: Seq<(Seq<char>, Seq<char>)>) -> Option<Seq<char>>;

/// `base` joined with `path` (`Url::join`), with the query
/// cleared and the pairs `params` appended (`query_pairs_mut`). The result
/// is named by [`joined_url`] and depends on the three arguments alone.
#[verifier::external_body]
pub fn build_url(base: &str, path: &str, params: &Vec<(String, String)>) -> (r: Option<String>)
    ensures
        opt_view(r) == joined_url(base@, path@, query_view(params@)),
{
    let mut url = url::Url::parse(base).ok()?.join(path).ok()?;
    url.query_pairs_mut().clear().extend_pairs(params.iter().map(|p| (p.0.as_str(), p.1.as_str())));
    Some(url.to_string())
}

/// The path of the client API call `path`.
pub open spec fn client_path(path: Seq<char>) -> Seq<char> {
    "/_matrix/client/r0/"@ + path
}

/// `client_url!`: the URL of the client API call `path` with the query `params`.
pub fn client_url(base: &str, path: &str, params: &Vec<(String, String)>) -> (r: Option<String>)
    ensures
        opt_view(r) == joined_url(base@, client_path(path@), query_view(params@)),
{
    let full = concat("/_matrix/client/r0/", path);
    build_url(base, full.as_str(), params)
}

/// The query of a page of a room's messages: the direction, the size of the
/// page and the access token, then where the page starts and ends, if given.
pub open spec fn messages_query(
    tk: Seq<char>,
    dir: Seq<char>,
    limit: int,
    from: Option<Seq<char>>,
    to: Option<Seq<char>>,
) -> Seq<(Seq<char>, Seq<char>)> {
    let q = seq![("dir"@, dir), ("limit"@, int_decimal(limit)), ("access_token"@, tk)];
    let q1 = match from {
        Some(f) => q.push(("from"@, f)),
        None => q,
    };
    match to {
        Some(t) => q1.push(("to"@, t)),
        None => q1,
    }
}

/// The path of the messages of room `roomid`.
pub open spec fn messages_path(roomid: Seq<char>) -> Seq<char> {
    "rooms/"@ + roomid + "/messages"@
}

/// The text of an optional string slice.
pub open spec fn text_opt(s: Option<&str>) -> Option<Seq<char>> {
    match s {
        Some(t) => Some(t@),
        None => None,
    }
}

/// The URL of a page of the messages of room `roomid`: going backwards
/// (`dir` "b") or forwards ("f"), `limit` events at most, from the batch
/// `from` and up to the batch `to` where they are given.
pub fn messages_url(
    base: &str,
    tk: &str,
    roomid: &str,
    dir: &str,
    limit: i32,
    from: Option<&str>,
    to: Option<&str>,
) -> (r: Option<String>)
    ensures
        opt_view(r) == joined_url(
            base@,
            client_path(messages_path(roomid@)),
            messages_query(tk@, dir@, limit as int, text_opt(from), text_opt(to)),
        ),
{
    let mut params: Vec<(String, String)> = Vec::new();
    params.push(("dir".to_owned(), dir.to_owned()));
    params.push(("limit".to_owned(), i64_to_string(limit as i64)));
    params.push(("access_token".to_owned(), tk.to_owned()));
    if let Some(f) = from {
        params.push(("from".to_owned(), f.to_owned()));
    }
    if let Some(t) = to {
        params.push(("to".to_owned(), t.to_owned()));
    }
    let a = concat("rooms/", roomid);
    let path = concat(a.as_str(), "/messages");
    proof {
        assert(query_view(params@) =~= messages_query(
            tk@,
            dir@,
            limit as int,
            text_opt(from),
            text_opt(to),
        ));
    }
    client_url(base, path.as_str(), &params)
}

/// Why a call of the API failed.
pub enum QueryError {
    /// The server answered with this Matrix error.
    MatrixError(Json),
    /// The answer to a call that failed could not be read as JSON.
    ReqwestError,
    /// The answer to a call that succeeded could not be read as JSON.
    BackendError,
}

/// The answer to a JSON query: `success` tells whether the HTTP status is a
/// success, `body` is the answer read as JSON where it could be. A failed
/// call, or an answer that is an object with an `errcode`, is a Matrix error.
pub fn query_answer(success: bool, body: Option<Json>) -> (r: Result<Json, QueryError>)
    ensures
        match body {
            None => if success {
                r matches Err(QueryError::BackendError)
            } else {
                r matches Err(QueryError::ReqwestError)
            },
            Some(js) => if !success || js.view().has_key("errcode"@) {
                r matches Err(QueryError::MatrixError(e)) && e.view() == js.view()
            } else {
                r matches Ok(v) && v.view() == js.view()
            },
        },
{
    match body {
        None => if success {
            Err(QueryError::BackendError)
        } else {
            Err(QueryError::ReqwestError)
        },
        Some(js) => if !success || js.has_key("errcode") {
            Err(QueryError::MatrixError(js))
        } else {
            Ok(js)
        },
    }
}

/// The events of the `chunk` of an answer; none where it holds no array.
pub open spec fn chunk_of(r: JsonV) -> Seq<JsonV> {
    match r.field("chunk"@) {
        JsonV::Array(a) => a,
        _ => Seq::empty(),
    }
}

/// A page of a room's history.
pub struct Page {
    /// The messages of the page, in the order the client keeps them.
    pub messages: Vec<Message>,
    /// For each message, the media to fetch as its thumbnail, if any.
    pub thumbs: Vec<Option<String>>,
    /// The batch where the page starts.
    pub start: String,
    /// The batch where it ends.
    pub end: String,
    /// Another page is to be asked for, from `end`.
    pub more: bool,
}

/// `p` holds the messages `ps`, each with the media to fetch as its thumbnail.
pub open spec fn holds_messages(p: Page, ps: Seq<(MessageV, Option<Seq<char>>)>) -> bool {
    &&& p.messages@.len() == ps.len()
    &&& p.thumbs@.len() == ps.len()
    &&& forall|k: int| 0 <= k < ps.len() ==> #[trigger] ps[k] == (p.messages@[k]@, opt_view(p.thumbs@[k]))
}

fn str_field(r: &Json, key: &str) -> (s: String)
    ensures
        s@ == r.view().field(key@).str_or(Seq::empty()),
{
    match r.field_str(key) {
        Some(t) => t.to_owned(),
        None => String::new(),
    }
}

/// The events of the answer's `chunk`, last one first.
fn reversed_chunk(r: &Json) -> (v: Vec<Json>)
    ensures
        view_items(v@) == chunk_of(r.view()).reverse(),
{
    let mut v: Vec<Json> = Vec::new();
    let a = match r.get("chunk") {
        Some(c) => match c.as_array() {
            Some(a) => a,
            None => {
                proof {
                    assert(view_items(v@) =~= chunk_of(r.view()).reverse());
                }
                return v;
            },
        },
        None => {
            proof {
                assert(view_items(v@) =~= chunk_of(r.view()).reverse());
            }
            return v;
        },
    };
    let ghost items = view_items(a@);
    proof {
        lemma_view_items(a@);
    }
    let n = a.len();
    let mut i: usize = 0;
    while i < n
        invariant
            n == a@.len(),
            i <= n,
            items == view_items(a@),
            items.len() == n,
            forall|k: int| 0 <= k < n ==> #[trigger] items[k] == a@[k].view(),
            v@.len() == i,
            forall|k: int| 0 <= k < i ==> #[trigger] v@[k].view() == items[n - 1 - k],
        decreases n - i,
    {
        v.push(a[n - 1 - i].duplicate());
        i = i + 1;
    }
    proof {
        lemma_view_items(v@);
        assert(view_items(v@) =~= items.reverse());
    }
    v
}

/// One page of a room's first messages, from the answer `r` about room
/// `roomid`, seen at `now`: the `m.room.message` events of its chunk, last
/// one first; another page is wanted while the chunk is not empty and
/// holds fewer than `get` messages. `None` where a message is dated out of
/// chrono's range, on which the client itself stops.
pub fn initial_page(r: &Json, roomid: &str, get: usize, now: &LocalTime) -> (res: Option<Page>)
    ensures
        res is None <==> chunk_of(r.view()).len() > 0 && sync_messages(roomid@, chunk_of(r.view()).reverse(), *now) is None,
        res matches Some(p) ==> {
            &&& p.start@ == r.view().field("start"@).str_or(Seq::empty())
            &&& p.end@ == r.view().field("end"@).str_or(Seq::empty())
            &&& chunk_of(r.view()).len() == 0 ==> p.messages@.len() == 0 && p.thumbs@.len() == 0 && !p.more
            &&& chunk_of(r.view()).len() > 0 ==> (sync_messages(roomid@, chunk_of(r.view()).reverse(), *now) matches Some(ps)
                && holds_messages(p, ps) && p.more == (ps.len() < get))
        },
{
    let start = str_field(r, "start");
    let end = str_field(r, "end");
    let evs = reversed_chunk(r);
    if evs.len() == 0 {
        return Some(Page { messages: Vec::new(), thumbs: Vec::new(), start, end, more: false });
    }
    match sync_room_messages(roomid, &evs, now) {
        Some((messages, thumbs)) => {
            let more = messages.len() < get;
            Some(Page { messages, thumbs, start, end, more })
        },
        None => None,
    }
}

/// One page of a gap in a room's history, from the answer `r` about room
/// `roomid`, seen at `now`: the `m.room.message` events of its chunk in order; the next page
/// is asked for from `end` while the chunk is not empty. `None` where a
/// message is dated out of chrono's range, on which the client itself stops.
pub fn gap_page(r: &Json, roomid: &str, now: &LocalTime) -> (res: Option<Page>)
    ensures
        res is None <==> chunk_of(r.view()).len() > 0 && sync_messages(roomid@, chunk_of(r.view()), *now) is None,
        res matches Some(p) ==> {
            &&& p.start@ == r.view().field("start"@).str_or(Seq::empty())
            &&& p.end@ == r.view().field("end"@).str_or(Seq::empty())
            &&& p.more == (chunk_of(r.view()).len() > 0)
            &&& chunk_of(r.view()).len() == 0 ==> p.messages@.len() == 0 && p.thumbs@.len() == 0
            &&& chunk_of(r.view()).len() > 0 ==> (sync_messages(roomid@, chunk_of(r.view()), *now) matches Some(ps)
                && holds_messages(p, ps))
        },
{
    let start = str_field(r, "start");
    let end = str_field(r, "end");
    let empty: Vec<Json> = Vec::new();
    let evs = match r.get("chunk") {
        Some(c) => match c.as_array() {
            Some(a) => a,
            None => &empty,
        },
        None => &empty,
    };
    proof {
        assert(view_items(empty@) =~= Seq::<JsonV>::empty());
    }
    if evs.len() == 0 {
        proof {
            lemma_view_items(evs@);
        }
        return Some(Page { messages: Vec::new(), thumbs: Vec::new(), start, end, more: false });
    }
    proof {
        lemma_view_items(evs@);
    }
    match sync_room_messages(roomid, evs, now) {
        Some((messages, thumbs)) => Some(Page { messages, thumbs, start, end, more: true }),
        None => None,
    }
}

/// A room's first messages, joining the pages: the messages of the
/// pages further back come first.
pub fn join_initial<T>(older: Vec<T>, page: Vec<T>) -> (r: Vec<T>)
    ensures
        r@ == older@ + page@,
{
    let mut r = older;
    let mut p = page;
    r.append(&mut p);
    r
}

/// Filling a gap in a room's history, joining the pages: each message of the later pages is
/// put in front in turn, so that they come first, the last one first.
pub fn join_gap<T>(later: Vec<T>, page: Vec<T>) -> (r: Vec<T>)
    ensures
        r@ == later@.reverse() + page@,
{
    let ghost l = later@;
    let mut rest = later;
    let mut r: Vec<T> = Vec::new();
    while rest.len() > 0
        invariant
            rest@ == l.take(rest@.len() as int),
            rest@.len() <= l.len(),
            r@ == l.subrange(rest@.len() as int, l.len() as int).reverse(),
        decreases rest@.len(),
    {
        let x = rest.pop().unwrap();
        r.push(x);
        proof {
            assert(rest@ =~= l.take(rest@.len() as int));
            assert(r@ =~= l.subrange(rest@.len() as int, l.len() as int).reverse());
        }
    }
    let mut p = page;
    r.append(&mut p);
    proof {
        assert(l.subrange(0, l.len() as int) =~= l);
    }
    r
}

/// The size of the next page of a room's first messages: twice this
/// one's, `None` where that does not fit in an `i32`.
pub fn doubled_limit(limit: i32) -> (r: Option<i32>)
    ensures
        r == (if i32::MIN <= 2 * limit <= i32::MAX { Some((2 * limit) as i32) } else { None::<i32> }),
{
    limit.checked_mul(2)
}

} // verus!
