//! Avatars: the generated picture of a user or room without one (its colour
//! and letter), and where a user's avatar comes from.
use vstd::prelude::*;
use crate::json::{Json, JsonV, str_eq, view_items, lemma_view_items};
use crate::types::Error;
use crate::text::{to_uppercase, uppercase};
use std::hash::{Hash, Hasher};

verus! {

/// The shape of a generated avatar.
pub enum AvatarMode {
    Rect,
    Circle,
}

/// What `DefaultHasher` gives for a string (`Hash` on `str`, then `finish`).
/// Its keys are fixed, so within one build of the standard library the
/// result depends on the text alone.
pub uninterp spec fn default_hash(s: Seq<char>) -> u64;

/// The hash of `t` with a fresh `DefaultHasher`; named by
/// [`default_hash`].
#[verifier::external_body]
pub fn calculate_hash(t: &str) -> (r: u64)
    ensures
        r == default_hash(t@),
{
    let mut s = std::collections::hash_map::DefaultHasher::new();
    t.hash(&mut s);
    s.finish()
}

/// The colours of generated avatars, as red, green and blue.
pub open spec fn palette() -> Seq<(u8, u8, u8)> {
    seq![
        (69, 189, 243),
        (224, 143, 112),
        (77, 182, 172),
        (149, 117, 205),
        (176, 133, 94),
        (240, 98, 146),
        (163, 211, 108),
        (121, 134, 203),
        (241, 185, 29),
    ]
}

/// The colour of the avatar stored at `path`, chosen by the
/// hash of the path.
pub fn identicon_color(path: &str) -> (c: (u8, u8, u8))
    ensures
        c == palette()[(default_hash(path@) % 9) as int],
{
    let h = calculate_hash(path);
    match h % 9 {
        0 => (69, 189, 243),
        1 => (224, 143, 112),
        2 => (77, 182, 172),
        3 => (149, 117, 205),
        4 => (176, 133, 94),
        5 => (240, 98, 146),
        6 => (163, 211, 108),
        7 => (121, 134, 203),
        _ => (241, 185, 29),
    }
}

/// The extended grapheme clusters of a text, in order, as
/// `unicode_segmentation` splits it.
pub uninterp spec fn grapheme_clusters(s: Seq<char>) -> Seq<Seq<char>>;

/// `UnicodeSegmentation::graphemes` (extended); named by [`grapheme_clusters`].
#[verifier::external_body]
fn graphemes(s: &str) -> (r: Vec<String>)
    ensures
        r@.map_values(|g: String| g@) == grapheme_clusters(s@),
{
    unicode_segmentation::UnicodeSegmentation::graphemes(s, true).map(|g| g.to_owned()).collect()
}

/// The letter an avatar shows for `name`: the first grapheme of its upper
/// case form, skipping a leading `#` or `@` when more follows; `X` for an
/// empty name.
pub open spec fn identicon_letter_of(name: Seq<char>) -> Seq<char> {
    let g = grapheme_clusters(uppercase(name));
    if g.len() == 0 {
        "X"@
    } else if (g[0] == "#"@ || g[0] == "@"@) && g.len() > 1 {
        g[1]
    } else {
        g[0]
    }
}

/// The letter the avatar shows for `name`.
pub fn identicon_letter(name: &str) -> (r: String)
    ensures
        r@ == identicon_letter_of(name@),
{
    let upper = to_uppercase(name);
    let g = graphemes(upper.as_str());
    proof {
        assert(g@.map_values(|x: String| x@).len() == g@.len());
    }
    if g.len() == 0 {
        return "X".to_owned();
    }
    proof {
        assert(g@.map_values(|x: String| x@)[0] == g@[0]@);
        if g@.len() > 1 {
            assert(g@.map_values(|x: String| x@)[1] == g@[1]@);
        }
    }
    if (str_eq(g[0].as_str(), "#") || str_eq(g[0].as_str(), "@")) && g.len() > 1 {
        g[1].clone()
    } else {
        g[0].clone()
    }
}

/// Where the avatar of a user comes from.
pub enum AvatarSource {
    /// A generated picture for the user `fname`, showing the first letter of `name`.
    Identicon { fname: String, name: String, mode: AvatarMode },
    /// The user's picture at `url`, fetched as a `width` by `height`
    /// thumbnail and stored under the user id `dest`.
    Thumbnail { url: String, dest: String, width: u32, height: u32 },
}

/// A user without an avatar URL gets a generated
/// round avatar with the first letter of their alias; else their avatar is
/// fetched as a 64 by 64 thumbnail, stored under their id.
pub fn get_user_avatar_img(userid: String, alias: String, avatar: String) -> (r: AvatarSource)
    ensures
        avatar@.len() == 0 ==> (r matches AvatarSource::Identicon { fname, name, mode } && fname@ == userid@
            && name@ == alias@ && mode is Circle),
        avatar@.len() != 0 ==> (r matches AvatarSource::Thumbnail { url, dest, width, height } && url@ == avatar@
            && dest@ == userid@ && width == 64 && height == 64),
{
    if avatar.as_str().is_empty() {
        AvatarSource::Identicon { fname: userid, name: alias, mode: AvatarMode::Circle }
    } else {
        AvatarSource::Thumbnail { url: avatar, dest: userid, width: 64, height: 64 }
    }
}

/// The name a user goes by after their profile `profile` was fetched: the
/// display name when there is a non-empty one, else the user id.
pub open spec fn profile_name(userid: Seq<char>, profile: Option<JsonV>) -> Seq<char> {
    match profile {
        Some(js) => match js.field("displayname"@).str_of() {
            Some(n) => if n.len() == 0 { userid } else { n },
            None => userid,
        },
        None => userid,
    }
}

/// A user's avatar, once the profile of `userid` was fetched (`None` where
/// that failed): the name to show for the user, and where their avatar comes
/// from (their `avatar_url` as a 64 by 64 thumbnail, else a generated
/// avatar). Without a profile, the generated avatar shows the id's second
/// character, which the client cuts out by bytes, so the id must begin with
/// two ASCII characters then.
pub fn get_user_avatar(userid: &str, profile: Option<&Json>) -> (r: (String, AvatarSource))
    requires
        profile is None ==> userid@.len() >= 2 && (userid@[0] as u32) < 128 && (userid@[1] as u32) < 128,
    ensures
        r.0@ == profile_name(userid@, match profile { Some(j) => Some(j.view()), None => None }),
        match profile {
            Some(js) => match js.view().field("avatar_url"@).str_of() {
                Some(url) => r.1 matches AvatarSource::Thumbnail { url: u, dest, width, height } && u@ == url
                    && dest@ == userid@ && width == 64 && height == 64,
                None => r.1 matches AvatarSource::Identicon { fname, name, mode } && fname@ == userid@
                    && name@ == r.0@ && mode is Circle,
            },
            None => r.1 matches AvatarSource::Identicon { fname, name, mode } && fname@ == userid@
                && name@ == userid@.subrange(1, 2) && mode is Circle,
        },
{
    match profile {
        Some(js) => {
            let name = match js.field_str("displayname") {
                Some(n) => if n.is_empty() {
                    userid.to_owned()
                } else {
                    n.to_owned()
                },
                None => userid.to_owned(),
            };
            match js.field_str("avatar_url") {
                Some(url) => (name, AvatarSource::Thumbnail { url: url.to_owned(), dest: userid.to_owned(), width: 64, height: 64 }),
                None => {
                    let n2 = name.clone();
                    (name, AvatarSource::Identicon { fname: userid.to_owned(), name: n2, mode: AvatarMode::Circle })
                },
            }
        },
        None => {
            let v = crate::text::chars_of(userid);
            let mut one: Vec<char> = Vec::new();
            one.push(v[1]);
            let letter = crate::text::string_from_chars(&one);
            proof {
                assert(one@ =~= userid@.subrange(1, 2));
            }
            (userid.to_owned(), AvatarSource::Identicon { fname: userid.to_owned(), name: letter, mode: AvatarMode::Circle })
        },
    }
}

/// Members of a room other than `userid` that joined it, by the state events.
pub open spec fn joined_other(userid: Seq<char>) -> spec_fn(JsonV) -> bool {
    |x: JsonV| x.field("type"@).is_text("m.room.member"@) && x.field("content"@).field("membership"@).is_text("join"@)
        && !x.field("sender"@).is_text(userid)
}

/// How a room's avatar is made.
pub struct RoomAvatarPlan {
    /// The avatar of the one other member, to fetch as a thumbnail, when
    /// there is exactly one.
    pub member_avatar: Option<String>,
    /// The room's name, for a generated avatar when no thumbnail comes.
    pub fallback_name: String,
}

/// A room's avatar, once the room state `st` was fetched: with exactly one
/// other member, that member's avatar (empty without one) is fetched;
/// otherwise, or when that fails, a generated avatar shows the room's name.
/// An error where the state is no array.
pub fn get_room_avatar(st: &Json, userid: &str) -> (r: Result<RoomAvatarPlan, Error>)
    ensures
        match st.view() {
            JsonV::Array(evs) => r matches Ok(p) && Some(p.fallback_name@) == crate::api::spec_room_name(st.view(), userid@)
                && ({
                    let others = evs.filter(joined_other(userid@));
                    if others.len() == 1 {
                        p.member_avatar matches Some(a) && a@ == others[0].field("content"@).field("avatar_url"@).str_or(Seq::empty())
                    } else {
                        p.member_avatar is None
                    }
                }),
            _ => r matches Err(e) && e == Error::BackendError,
        },
{
    let arr = match st.as_array() {
        Some(a) => a,
        None => return Err(Error::BackendError),
    };
    let ghost items = view_items(arr@);
    let ghost p = joined_other(userid@);
    proof {
        lemma_view_items(arr@);
        assert(items.take(0).filter(p) =~= Seq::<JsonV>::empty());
    }
    let mut count: usize = 0;
    let mut first: Option<String> = None;
    let mut i: usize = 0;
    while i < arr.len()
        invariant
            i <= arr.len(),
            items == view_items(arr@),
            items.len() == arr@.len(),
            forall|k: int| 0 <= k < arr@.len() ==> #[trigger] items[k] == arr@[k].view(),
            p == joined_other(userid@),
            count == items.take(i as int).filter(p).len(),
            count <= i,
            count == 0 ==> first is None,
            count > 0 ==> (first matches Some(a) && a@ == items.take(i as int).filter(p)[0].field("content"@).field("avatar_url"@).str_or(Seq::empty())),
        decreases arr.len() - i,
    {
        proof {
            crate::seqs::lemma_filter_step(items, p, i as int);
        }
        let x = &arr[i];
        if x.field_is("type", "m.room.member") && crate::api::path_is(x, "content", "membership", "join") && !x.field_is("sender", userid) {
            if count == 0 {
                let url = match crate::api::path_str(x, "content", "avatar_url") {
                    Some(u) => u.to_owned(),
                    None => String::new(),
                };
                first = Some(url);
            }
            proof {
                assert(items.take(i + 1).filter(p)[0] == if count == 0 { items[i as int] } else { items.take(i as int).filter(p)[0] });
            }
            count = count + 1;
        }
        i = i + 1;
    }
    proof {
        assert(items.take(items.len() as int) =~= items);
    }
    let name = match crate::api::calculate_room_name(st, userid) {
        Ok(n) => n,
        Err(e) => return Err(e),
    };
    Ok(RoomAvatarPlan { member_avatar: if count == 1 { first } else { None }, fallback_name: name })
}

} // verus!
