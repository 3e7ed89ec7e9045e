//! The computations behind a few widgets: image scaling, the audio player's
//! time labels, member badges and search, and message headers.
use vstd::prelude::*;
use crate::json::str_eq;
use crate::text::{contains, lowercase, seq_contains, to_lowercase};
use crate::types::{Member, MemberV, opt_view};

verus! {

/// Integer division rounded toward zero, as Rust's `/` does.
pub open spec fn div_trunc(a: int, b: int) -> int {
    if (a >= 0) == (b > 0) || a == 0 {
        if a >= 0 { a / b } else { (-a) / (-b) }
    } else {
        if a >= 0 { -(a / (-b)) } else { -((-a) / b) }
    }
}

/// `w` x `h` brought within `maxw` x `maxh` along its longer
/// side, keeping the aspect ratio.
pub open spec fn spec_adjust_to(w: int, h: int, maxw: int, maxh: int) -> (int, int) {
    if w > h && w > maxw {
        (maxw, div_trunc(maxw * h, w))
    } else if h >= w && h > maxh {
        (div_trunc(maxh * w, h), maxh)
    } else {
        (w, h)
    }
}

/// The inputs on which `adjust_to` neither overflows nor divides by zero.
pub open spec fn adjust_to_defined(w: int, h: int, maxw: int, maxh: int) -> bool {
    &&& (w > h && w > maxw) ==> (i32::MIN <= maxw * h <= i32::MAX && w != 0
        && !(maxw * h == i32::MIN && w == -1))
    &&& (!(w > h && w > maxw) && h >= w && h > maxh) ==> (i32::MIN <= maxh * w <= i32::MAX && h != 0
        && !(maxh * w == i32::MIN && h == -1))
}

fn i32_div(a: i32, b: i32) -> (r: i32)
    requires
        b != 0,
        !(a == i32::MIN && b == -1),
    ensures
        r == div_trunc(a as int, b as int),
{
    let x = a as i64;
    let y = b as i64;
    let ax: i64 = if x >= 0 { x } else { -x };
    let ay: i64 = if y >= 0 { y } else { -y };
    let q: i64 = ax / ay;
    proof {
        assert(0 <= q <= ax) by (nonlinear_arith)
            requires
                ay >= 1,
                ax >= 0,
                q == ax / ay,
        ;
        assert(ay == 1 ==> q == ax) by (nonlinear_arith)
            requires
                q == ax / ay,
        ;
        assert(ay >= 2 ==> 2 * q <= ax) by (nonlinear_arith)
            requires
                ax >= 0,
                q == ax / ay,
        ;
        assert(ax == 0 ==> q == 0) by (nonlinear_arith)
            requires
                ay >= 1,
                q == ax / ay,
        ;
        assert(x == 0 && y < 0 ==> (a as int) / (b as int) == 0) by (nonlinear_arith)
            requires
                x == a,
                y == b,
        ;
    }
    let r: i64 = if (x >= 0) == (y > 0) || x == 0 {
        q
    } else {
        -q
    };
    r as i32
}

/// The size to draw a `w` x `h` image at within `maxw` x `maxh`.
pub fn adjust_to(w: i32, h: i32, maxw: i32, maxh: i32) -> (r: (i32, i32))
    requires
        adjust_to_defined(w as int, h as int, maxw as int, maxh as int),
    ensures
        (r.0 as int, r.1 as int) == spec_adjust_to(w as int, h as int, maxw as int, maxh as int),
{
    let mut pw = w;
    let mut ph = h;
    if pw > ph && pw > maxw {
        ph = i32_div(maxw * ph, pw);
        pw = maxw;
    } else if ph >= pw && ph > maxh {
        pw = i32_div(maxh * pw, ph);
        ph = maxh;
    }
    (pw, ph)
}

/// How an image widget asks for room before it is drawn: whether it grows
/// horizontally and vertically, and the size it requests, if any.
#[derive(PartialEq, Eq, Debug)]
pub struct SizeRequest {
    pub hexpand: bool,
    pub vexpand: bool,
    pub request: Option<(i32, i32)>,
}

/// The room an image with the largest size `max_size` asks for. Without a
/// largest size it grows both ways. With one it does not grow vertically; a
/// fixed-size image requests exactly that size, any other grows horizontally
/// and requests one pixel of width and the height of its picture, or the
/// largest height while no picture is loaded.
pub fn image_size_request(max_size: Option<(i32, i32)>, fixed_size: bool, picture_height: Option<i32>) -> (r: SizeRequest)
    ensures
        max_size is None ==> r == (SizeRequest { hexpand: true, vexpand: true, request: None }),
        max_size matches Some((w, h)) ==> r == (SizeRequest {
            hexpand: !fixed_size,
            vexpand: false,
            request: Some(
                if fixed_size {
                    (w, h)
                } else {
                    (1i32, match picture_height { Some(ph) => ph, None => h })
                },
            ),
        }),
{
    match max_size {
        None => SizeRequest { hexpand: true, vexpand: true, request: None },
        Some((w, h)) => {
            if fixed_size {
                SizeRequest { hexpand: false, vexpand: false, request: Some((w, h)) }
            } else {
                let height = match picture_height {
                    Some(ph) => ph,
                    None => h,
                };
                SizeRequest { hexpand: true, vexpand: false, request: Some((1, height)) }
            }
        },
    }
}

/// The box an image is fitted into when drawn: the widget's allocation,
/// cut down to the largest size where there is one.
pub fn draw_bounds(max_size: Option<(i32, i32)>, widget_w: i32, widget_h: i32) -> (r: (i32, i32))
    ensures
        max_size is None ==> r == (widget_w, widget_h),
        max_size matches Some((w, h)) ==> r == (
            if w < widget_w { w } else { widget_w },
            if h < widget_h { h } else { widget_h },
        ),
{
    match max_size {
        Some((w, h)) => (
            if w < widget_w { w } else { widget_w },
            if h < widget_h { h } else { widget_h },
        ),
        None => (widget_w, widget_h),
    }
}

/// The size an image requests once its picture is drawn at `pw` x `ph`:
/// exactly that when its size is fixed, one pixel wide and `ph` high when
/// the picture is not shrunk to fit, no new request otherwise.
pub fn drawn_size_request(fixed_size: bool, shrink_to_fit: bool, pw: i32, ph: i32) -> (r: Option<(i32, i32)>)
    ensures
        fixed_size ==> r == Some((pw, ph)),
        !fixed_size && !shrink_to_fit ==> r == Some((1i32, ph)),
        !fixed_size && shrink_to_fit ==> r is None,
{
    if fixed_size {
        Some((pw, ph))
    } else if !shrink_to_fit {
        Some((1, ph))
    } else {
        None
    }
}

/// Two decimal digits of `n` (`0 <= n < 100`), zero-padded.
pub open spec fn two_digits(n: int) -> Seq<char> {
    seq![crate::text::digit_char(n / 10), crate::text::digit_char(n % 10)]
}

/// `HH:MM:SS` from an hour on, else `MM:SS`.
pub open spec fn spec_format_duration(seconds: int) -> Seq<char> {
    let hh = two_digits(seconds / 3600);
    let mm = two_digits((seconds % 3600) / 60);
    let ss = two_digits(seconds % 60);
    if seconds >= 3600 {
        hh + seq![':'] + mm + seq![':'] + ss
    } else {
        mm + seq![':'] + ss
    }
}

/// `chrono::NaiveTime::from_num_seconds_from_midnight(seconds, 0)` formatted
/// with `fmt`, which is `%T` or `%M:%S`: hours, minutes and seconds as two
/// zero-padded digits, separated by colons, as chrono's `strftime` documents.
#[verifier::external_body]
fn time_of_day_text(seconds: u32, fmt: &str) -> (r: String)
    requires
        seconds < 86400,
        fmt@ == "%T"@ || fmt@ == "%M:%S"@,
    ensures
        fmt@ == "%T"@ ==> r@ == two_digits(seconds as int / 3600) + seq![':'] + two_digits(
            (seconds as int % 3600) / 60,
        ) + seq![':'] + two_digits(seconds as int % 60),
        fmt@ == "%M:%S"@ ==> r@ == two_digits((seconds as int % 3600) / 60) + seq![':'] + two_digits(
            seconds as int % 60,
        ),
{
    #[allow(deprecated)]
    let time = chrono::NaiveTime::from_num_seconds_from_midnight(seconds, 0);
    time.format(fmt).to_string()
}

/// The label for a position or duration in seconds,
/// within one day.
pub fn format_duration(seconds: u32) -> (r: String)
    requires
        seconds < 86400,
    ensures
        r@ == spec_format_duration(seconds as int),
{
    proof {
        reveal_strlit("%T");
        reveal_strlit("%M:%S");
    }
    if seconds >= 3600 {
        time_of_day_text(seconds, "%T")
    } else {
        time_of_day_text(seconds, "%M:%S")
    }
}

/// The badge a member's power level earns.
pub enum BadgeColor {
    Gold,
    Silver,
}

/// The badge for a power level (none counting as zero): gold at 100,
/// silver from 50 to 99.
pub open spec fn badge_for(power_level: Option<i32>) -> Option<BadgeColor> {
    let pl = match power_level {
        Some(p) => p as int,
        None => 0,
    };
    if pl == 100 {
        Some(BadgeColor::Gold)
    } else if 50 <= pl <= 99 {
        Some(BadgeColor::Silver)
    } else {
        None
    }
}

/// The badge for a power level: gold at 100, silver from 50 to 99.
pub fn power_badge(power_level: Option<i32>) -> (r: Option<BadgeColor>)
    ensures
        r == badge_for(power_level),
        ({
            let pl = match power_level {
                Some(p) => p as int,
                None => 0,
            };
            &&& pl == 100 <==> (r is Some && r->0 is Gold)
            &&& (50 <= pl <= 99) <==> (r is Some && r->0 is Silver)
        }),
{
    let pl = match power_level {
        Some(p) => p,
        None => 0,
    };
    if pl == 100 {
        Some(BadgeColor::Gold)
    } else if 50 <= pl && pl <= 99 {
        Some(BadgeColor::Silver)
    } else {
        None
    }
}

/// The name shown for a member: its alias when it has one, else its user id.
pub open spec fn member_alias(m: MemberV) -> Seq<char> {
    match m.alias {
        Some(a) => a,
        None => m.uid,
    }
}

impl Member {
    /// The alias, or the user id without one.
    pub fn get_alias(&self) -> (r: String)
        ensures
            r@ == member_alias(self@),
    {
        match &self.alias {
            Some(a) => a.clone(),
            None => self.uid.clone(),
        }
    }
}

/// What the row of a member in the members list shows.
pub struct MemberRow {
    /// The badge on the avatar.
    pub badge: Option<BadgeColor>,
    /// The name shown.
    pub name: String,
    pub uid: String,
    /// The power level, for a member whose level is above zero.
    pub power: Option<String>,
}

/// The member's badge, name and id, and their power
/// level written "(power N)" when it is above zero (a missing one is zero).
pub fn member_row(member: &Member, power_level: Option<i32>) -> (r: MemberRow)
    ensures
        r.badge == badge_for(power_level),
        r.name@ == member_alias(member@),
        r.uid@ == member.uid@,
        ({
            let pl = match power_level {
                Some(p) => p as int,
                None => 0,
            };
            &&& pl > 0 <==> r.power is Some
            &&& r.power matches Some(t) ==> t@ == "(power "@ + crate::text::int_decimal(pl) + ")"@
        }),
{
    let pl = match power_level {
        Some(p) => p,
        None => 0,
    };
    let power = if pl > 0 {
        let a = crate::text::concat("(power ", crate::text::i64_to_string(pl as i64).as_str());
        Some(crate::text::concat(a.as_str(), ")"))
    } else {
        None
    };
    MemberRow { badge: power_badge(power_level), name: member.get_alias(), uid: member.uid.clone(), power }
}

/// Which members the search shows (those whose name contains
/// the search text, ignoring case), and whether none is shown; `None` without
/// a search.
pub fn filter_rows(members: &Vec<Member>, search: Option<&str>) -> (r: Option<(Vec<bool>, bool)>)
    ensures
        search is None ==> r is None,
        search matches Some(s) ==> r matches Some((shown, empty)) && shown@.len() == members@.len()
            && (forall|i: int| 0 <= i < members@.len() ==> #[trigger] shown@[i] == seq_contains(
                lowercase(member_alias(members@[i]@)),
                lowercase(s@),
            )) && empty == (forall|i: int| 0 <= i < members@.len() ==> !shown@[i]),
{
    let s = match search {
        Some(s) => s,
        None => return None,
    };
    let search = to_lowercase(s);
    let mut shown: Vec<bool> = Vec::new();
    let mut empty = true;
    let mut i: usize = 0;
    while i < members.len()
        invariant
            i <= members.len(),
            search@ == lowercase(s@),
            shown@.len() == i,
            forall|k: int| 0 <= k < i ==> #[trigger] shown@[k] == seq_contains(
                lowercase(member_alias(members@[k]@)),
                lowercase(s@),
            ),
            empty == (forall|k: int| 0 <= k < i ==> !shown@[k]),
        decreases members.len() - i,
    {
        let alias = members[i].get_alias();
        let alias_lower = to_lowercase(alias.as_str());
        let found = contains(alias_lower.as_str(), search.as_str());
        let ghost old_shown = shown@;
        shown.push(found);
        if found {
            empty = false;
        }
        proof {
            assert(shown@[i as int] == found);
            assert(forall|k: int| 0 <= k < i ==> shown@[k] == old_shown[k]);
            if !found && !empty {
                let w = choose|k: int| 0 <= k < i && old_shown[k];
                assert(shown@[w]);
            }
        }
        i = i + 1;
    }
    Some((shown, empty))
}

} // verus!
