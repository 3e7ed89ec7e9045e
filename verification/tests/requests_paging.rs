use fractal::json::Json;
use fractal::requests::{
    build_url, client_url, doubled_limit, gap_page, initial_page, join_gap, join_initial, messages_url, query_answer,
    QueryError,
};
use fractal::types::LocalTime;

fn s(x: &str) -> Json {
    Json::Str(x.to_string())
}

fn obj(pairs: Vec<(&str, Json)>) -> Json {
    Json::Object(pairs.into_iter().map(|(k, v)| (k.to_string(), v)).collect())
}

fn message(id: &str, body: &str) -> Json {
    obj(vec![
        ("type", s("m.room.message")),
        ("sender", s("@a:x")),
        ("event_id", s(id)),
        ("content", obj(vec![("msgtype", s("m.text")), ("body", s(body))])),
    ])
}

fn answer(chunk: Vec<Json>) -> Json {
    obj(vec![("start", s("s1")), ("end", s("e1")), ("chunk", Json::Array(chunk))])
}

fn now() -> LocalTime {
    LocalTime { secs: 1000, nanos: 5 }
}

#[test]
fn build_url_joins_and_sets_query() {
    let params = vec![("a".to_string(), "1 2".to_string()), ("b".to_string(), "x&y".to_string())];
    let url = build_url("https://matrix.org", "/_matrix/client/r0/sync", &params).unwrap();
    assert_eq!(url, "https://matrix.org/_matrix/client/r0/sync?a=1+2&b=x%26y");
    assert_eq!(build_url("not a url", "/x", &params), None);
}

#[test]
fn client_url_prefixes_the_api() {
    let url = client_url("https://example.org/", "login", &Vec::new()).unwrap();
    assert_eq!(url, "https://example.org/_matrix/client/r0/login?");
}

#[test]
fn messages_url_backwards_from_a_batch() {
    let url = messages_url("https://matrix.org", "TK", "!r:x", "b", 40, Some("t1"), None).unwrap();
    assert_eq!(url, "https://matrix.org/_matrix/client/r0/rooms/!r:x/messages?dir=b&limit=40&access_token=TK&from=t1");
    let gap = messages_url("https://matrix.org", "TK", "!r:x", "f", 10, Some("a"), Some("b")).unwrap();
    assert_eq!(gap, "https://matrix.org/_matrix/client/r0/rooms/!r:x/messages?dir=f&limit=10&access_token=TK&from=a&to=b");
}

#[test]
fn query_answer_success_and_errors() {
    assert!(matches!(query_answer(true, Some(obj(vec![("a", Json::Int(1))]))), Ok(Json::Object(_))));
    assert!(matches!(query_answer(true, Some(obj(vec![("errcode", s("M_FORBIDDEN"))]))), Err(QueryError::MatrixError(_))));
    assert!(matches!(query_answer(false, Some(obj(vec![]))), Err(QueryError::MatrixError(_))));
    assert!(matches!(query_answer(false, None), Err(QueryError::ReqwestError)));
    assert!(matches!(query_answer(true, None), Err(QueryError::BackendError)));
    assert!(matches!(query_answer(true, Some(Json::Array(vec![s("errcode")]))), Ok(Json::Array(_))));
}

#[test]
fn initial_page_last_event_first() {
    let topic = obj(vec![("type", s("m.room.topic"))]);
    let r = answer(vec![message("$1", "one"), topic, message("$2", "two")]);
    let p = initial_page(&r, "!r:x", 3, &now()).unwrap();
    assert_eq!(p.start, "s1");
    assert_eq!(p.end, "e1");
    assert_eq!(p.messages.len(), 2);
    assert_eq!(p.messages[0].body, "two");
    assert_eq!(p.messages[1].body, "one");
    assert_eq!(p.messages[0].room, "!r:x");
    assert_eq!(p.thumbs, vec![None, None]);
    assert!(p.more);
    let enough = initial_page(&r, "!r:x", 2, &now()).unwrap();
    assert!(!enough.more);
}

#[test]
fn initial_page_empty_chunk_stops() {
    let p = initial_page(&answer(vec![]), "!r:x", 10, &now()).unwrap();
    assert!(p.messages.is_empty());
    assert!(!p.more);
    let q = initial_page(&obj(vec![("end", s("e"))]), "!r:x", 10, &now()).unwrap();
    assert!(!q.more);
    assert_eq!(q.start, "");
    assert_eq!(q.end, "e");
}

#[test]
fn gap_page_in_order_until_empty() {
    let p = gap_page(&answer(vec![message("$1", "one"), message("$2", "two")]), "!r:x", &now()).unwrap();
    assert_eq!(p.messages.len(), 2);
    assert_eq!(p.messages[0].body, "one");
    assert_eq!(p.messages[1].body, "two");
    assert!(p.more);
    let last = gap_page(&answer(vec![]), "!r:x", &now()).unwrap();
    assert!(last.messages.is_empty());
    assert!(!last.more);
}

#[test]
fn pages_out_of_range_dates_stop() {
    let old = obj(vec![
        ("type", s("m.room.message")),
        ("age", Json::Int(i64::MIN)),
        ("content", obj(vec![("body", s("x"))])),
    ]);
    assert!(gap_page(&answer(vec![old.duplicate()]), "!r:x", &now()).is_none());
    assert!(initial_page(&answer(vec![old]), "!r:x", 1, &now()).is_none());
}

#[test]
fn join_pages() {
    assert_eq!(join_initial(vec![1, 2], vec![3, 4]), vec![1, 2, 3, 4]);
    assert_eq!(join_gap(vec![1, 2, 3], vec![4, 5]), vec![3, 2, 1, 4, 5]);
    assert_eq!(join_gap(Vec::<i32>::new(), vec![4]), vec![4]);
}

#[test]
fn doubled_limit_overflows() {
    assert_eq!(doubled_limit(40), Some(80));
    assert_eq!(doubled_limit(-5), Some(-10));
    assert_eq!(doubled_limit(i32::MAX / 2 + 1), None);
}
