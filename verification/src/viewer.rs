//! The media viewer: the images of a room, one of them shown, and the
//! buttons that go to the one before and after.
use vstd::prelude::*;
use crate::json::str_eq;
use crate::seqs::{first_index, lemma_first_index};
use crate::types::{Message, Room, opt_view};

verus! {

/// The images of a room that the viewer goes through.
pub struct MediaViewer {
    pub media_names: Vec<String>,
    pub media_urls: Vec<String>,
    pub current_media_index: usize,
}

/// Image messages.
pub open spec fn is_image() -> spec_fn(Message) -> bool {
    |m: Message| m.mtype@ == "m.image"@
}

/// The image messages of a room, in order.
pub open spec fn image_messages(msgs: Seq<Message>) -> Seq<Message> {
    msgs.filter(is_image())
}

/// A message's URL, or the empty string without one.
pub open spec fn url_or_empty(m: Message) -> Seq<char> {
    match m.url {
        Some(u) => u@,
        None => Seq::empty(),
    }
}

/// The position of the first URL equal to `url`.
fn url_position(urls: &Vec<String>, url: &str) -> (r: Option<usize>)
    ensures
        r matches Some(i) ==> first_index(urls@.map_values(|s: String| s@), |u: Seq<char>| u == url@) == Some(i as int)
            && i < urls@.len(),
        r is None ==> first_index(urls@.map_values(|s: String| s@), |u: Seq<char>| u == url@) is None,
{
    let ghost uv = urls@.map_values(|s: String| s@);
    let ghost q = |u: Seq<char>| u == url@;
    let mut i: usize = 0;
    while i < urls.len()
        invariant
            i <= urls@.len(),
            uv == urls@.map_values(|s: String| s@),
            q == (|u: Seq<char>| u == url@),
            forall|j: int| 0 <= j < i ==> !q(#[trigger] uv[j]),
        decreases urls@.len() - i,
    {
        if str_eq(urls[i].as_str(), url) {
            proof {
                lemma_first_index(uv, q, i as int);
            }
            return Some(i);
        }
        i = i + 1;
    }
    proof {
        lemma_first_index(uv, q, uv.len() as int);
    }
    None
}

impl MediaViewer {
    /// A name for each URL, and the current image is one of them when there is one.
    pub open spec fn wf(&self) -> bool {
        &&& self.media_names@.len() == self.media_urls@.len()
        &&& self.media_urls@.len() > 0 ==> self.current_media_index < self.media_urls@.len()
        &&& self.media_urls@.len() == 0 ==> self.current_media_index == 0
    }

    /// The images of `room`, by name (their body) and
    /// URL, and the first one with URL `current_media_url` shown (the first
    /// image when none has it).
    pub fn new(room: &Room, current_media_url: &str) -> (r: MediaViewer)
        ensures
            r.wf(),
            r.media_names@.map_values(|s: String| s@) == image_messages(room.messages@).map_values(|m: Message| m.body@),
            r.media_urls@.map_values(|s: String| s@) == image_messages(room.messages@).map_values(|m: Message| url_or_empty(m)),
            first_index(r.media_urls@.map_values(|s: String| s@), |u: Seq<char>| u == current_media_url@) matches Some(i)
                ==> r.current_media_index == i,
            first_index(r.media_urls@.map_values(|s: String| s@), |u: Seq<char>| u == current_media_url@) is None
                ==> r.current_media_index == 0,
    {
        let ghost p = is_image();
        let msgs = &room.messages;
        let mut names: Vec<String> = Vec::new();
        let mut urls: Vec<String> = Vec::new();
        let mut k: usize = 0;
        proof {
            assert(msgs@.take(0).filter(p) =~= Seq::<Message>::empty());
            assert(names@.map_values(|s: String| s@) =~= Seq::<Seq<char>>::empty());
            assert(urls@.map_values(|s: String| s@) =~= Seq::<Seq<char>>::empty());
        }
        while k < msgs.len()
            invariant
                k <= msgs@.len(),
                p == is_image(),
                names@.map_values(|s: String| s@) == msgs@.take(k as int).filter(p).map_values(|m: Message| m.body@),
                urls@.map_values(|s: String| s@) == msgs@.take(k as int).filter(p).map_values(|m: Message| url_or_empty(m)),
            decreases msgs@.len() - k,
        {
            proof {
                crate::seqs::lemma_filter_step(msgs@, p, k as int);
            }
            let ghost n0 = names@.map_values(|s: String| s@);
            let ghost u0 = urls@.map_values(|s: String| s@);
            if str_eq(msgs[k].mtype.as_str(), "m.image") {
                names.push(msgs[k].body.clone());
                let u = match &msgs[k].url {
                    Some(u) => u.clone(),
                    None => String::new(),
                };
                urls.push(u);
                proof {
                    assert(""@ =~= Seq::<char>::empty()) by {
                        reveal_strlit("");
                    }
                    assert(names@.map_values(|s: String| s@) =~= n0.push(msgs@[k as int].body@));
                    assert(urls@.map_values(|s: String| s@) =~= u0.push(url_or_empty(msgs@[k as int])));
                    assert(msgs@.take(k + 1).filter(p).map_values(|m: Message| m.body@) =~= n0.push(msgs@[k as int].body@));
                    assert(msgs@.take(k + 1).filter(p).map_values(|m: Message| url_or_empty(m)) =~= u0.push(url_or_empty(msgs@[k as int])));
                }
            }
            k = k + 1;
        }
        proof {
            assert(msgs@.take(msgs@.len() as int) =~= msgs@);
            assert(names@.map_values(|s: String| s@).len() == urls@.map_values(|s: String| s@).len());
        }
        let current = match url_position(&urls, current_media_url) {
            Some(i) => i,
            None => 0,
        };
        MediaViewer { media_names: names, media_urls: urls, current_media_index: current }
    }

    /// The image before the current one becomes current,
    /// and its name is the new title; at the first image nothing changes.
    pub fn previous_media(&mut self) -> (title: Option<String>)
        requires
            old(self).wf(),
        ensures
            final(self).wf(),
            final(self).media_names == old(self).media_names,
            final(self).media_urls == old(self).media_urls,
            old(self).current_media_index == 0 ==> title is None && final(self).current_media_index == 0,
            old(self).current_media_index > 0 ==> (final(self).current_media_index == old(self).current_media_index - 1
                && (title matches Some(t) && t@ == final(self).media_names@[final(self).current_media_index as int]@)),
    {
        if self.current_media_index == 0 {
            return None;
        }
        self.current_media_index = self.current_media_index - 1;
        Some(self.media_names[self.current_media_index].clone())
    }

    /// The image after the current one becomes current, and
    /// its name is the new title; at the last image nothing changes.
    pub fn next_media(&mut self) -> (title: Option<String>)
        requires
            old(self).wf(),
            old(self).media_urls@.len() > 0,
        ensures
            final(self).wf(),
            final(self).media_names == old(self).media_names,
            final(self).media_urls == old(self).media_urls,
            old(self).current_media_index >= old(self).media_urls@.len() - 1 ==> title is None
                && final(self).current_media_index == old(self).current_media_index,
            old(self).current_media_index < old(self).media_urls@.len() - 1 ==> (final(self).current_media_index
                == old(self).current_media_index + 1 && (title matches Some(t)
                && t@ == final(self).media_names@[final(self).current_media_index as int]@)),
    {
        if self.current_media_index >= self.media_urls.len() - 1 {
            return None;
        }
        self.current_media_index = self.current_media_index + 1;
        Some(self.media_names[self.current_media_index].clone())
    }

    /// Whether going to the image before, and the
    /// one after, is possible.
    pub fn nav_sensitivity(&self) -> (r: (bool, bool))
        requires
            self.wf(),
            self.media_urls@.len() > 0,
        ensures
            r.0 == (self.current_media_index != 0),
            r.1 == (self.current_media_index < self.media_urls@.len() - 1),
    {
        (self.current_media_index != 0, self.current_media_index < self.media_urls.len() - 1)
    }
}

/// Going to the previous image and then to the next one comes back to the
/// same image, away from the first one (`previous_media`, then `next_media`).
pub proof fn lemma_previous_then_next(len: int, i: int, after_prev: int, after_next: int)
    requires
        0 < i < len,
        after_prev == i - 1,
        after_prev < len - 1 ==> after_next == after_prev + 1,
    ensures
        after_next == i,
{
}

} // verus!
