//! The members of a room, kept by user id.
use vstd::prelude::*;
use crate::json::str_eq;
use crate::types::{Member, MemberV};

verus! {

pub open spec fn members_view(v: Seq<Member>) -> Seq<MemberV> {
    v.map_values(|m: Member| m@)
}

/// Each user id occurs at most once.
pub open spec fn unique_uids(s: Seq<MemberV>) -> bool {
    forall|i: int, j: int| 0 <= i < s.len() && 0 <= j < s.len() && i != j ==> #[trigger] s[i].uid != #[trigger] s[j].uid
}

/// The members by user id that inserting `s` in order into an empty map gives:
/// for each id the last member with it.
pub open spec fn member_map(s: Seq<MemberV>) -> Map<Seq<char>, MemberV>
    decreases s.len(),
{
    if s.len() == 0 {
        Map::empty()
    } else {
        member_map(s.drop_last()).insert(s.last().uid, s.last())
    }
}

pub proof fn lemma_member_map_dom(s: Seq<MemberV>, u: Seq<char>)
    ensures
        member_map(s).contains_key(u) <==> exists|i: int| 0 <= i < s.len() && #[trigger] s[i].uid == u,
    decreases s.len(),
{
    if s.len() > 0 {
        lemma_member_map_dom(s.drop_last(), u);
        if exists|i: int| 0 <= i < s.len() && #[trigger] s[i].uid == u {
            let i = choose|i: int| 0 <= i < s.len() && #[trigger] s[i].uid == u;
            if i < s.len() - 1 {
                assert(s.drop_last()[i].uid == u);
            }
        }
        if exists|i: int| 0 <= i < s.len() - 1 && #[trigger] s.drop_last()[i].uid == u {
            let i = choose|i: int| 0 <= i < s.len() - 1 && #[trigger] s.drop_last()[i].uid == u;
            assert(s[i].uid == u);
        }
    }
}

/// Replacing the member with the same id is a map insert.
pub proof fn lemma_member_map_update(s: Seq<MemberV>, i: int, m: MemberV)
    requires
        0 <= i < s.len(),
        s[i].uid == m.uid,
        unique_uids(s),
    ensures
        member_map(s.update(i, m)) == member_map(s).insert(m.uid, m),
        unique_uids(s.update(i, m)),
    decreases s.len(),
{
    let t = s.update(i, m);
    if i == s.len() - 1 {
        assert(t.drop_last() =~= s.drop_last());
        assert(member_map(t) =~= member_map(s).insert(m.uid, m));
    } else {
        assert(t.drop_last() =~= s.drop_last().update(i, m));
        assert(unique_uids(s.drop_last()));
        lemma_member_map_update(s.drop_last(), i, m);
        assert(s.last().uid != m.uid);
        assert(member_map(t) =~= member_map(s).insert(m.uid, m));
    }
    assert forall|a: int, b: int| 0 <= a < t.len() && 0 <= b < t.len() && a != b implies #[trigger] t[a].uid != #[trigger] t[b].uid by {
        assert(s[a].uid != s[b].uid);
    }
}

/// Adding a member with a new id at the end is a map insert.
pub proof fn lemma_member_map_push(s: Seq<MemberV>, m: MemberV)
    requires
        unique_uids(s),
        forall|i: int| 0 <= i < s.len() ==> #[trigger] s[i].uid != m.uid,
    ensures
        member_map(s.push(m)) == member_map(s).insert(m.uid, m),
        unique_uids(s.push(m)),
{
    assert(s.push(m).drop_last() =~= s);
    let t = s.push(m);
    assert forall|a: int, b: int| 0 <= a < t.len() && 0 <= b < t.len() && a != b implies #[trigger] t[a].uid != #[trigger] t[b].uid by {
        if a < s.len() && b < s.len() {
            assert(s[a].uid != s[b].uid);
        }
    }
}

/// Removing the member with id `u` is a map remove.
pub proof fn lemma_member_map_remove(s: Seq<MemberV>, i: int)
    requires
        0 <= i < s.len(),
        unique_uids(s),
    ensures
        member_map(s.remove(i)) == member_map(s).remove(s[i].uid),
        unique_uids(s.remove(i)),
    decreases s.len(),
{
    let u = s[i].uid;
    let t = s.remove(i);
    if i == s.len() - 1 {
        assert(t =~= s.drop_last());
        lemma_member_map_dom(s.drop_last(), u);
        assert forall|k: int| 0 <= k < s.drop_last().len() implies #[trigger] s.drop_last()[k].uid != u by {
            assert(s[k].uid != s[i].uid);
        }
        assert(!member_map(s.drop_last()).contains_key(u));
        assert(member_map(t) =~= member_map(s).remove(u));
    } else {
        assert(t.drop_last() =~= s.drop_last().remove(i));
        assert(unique_uids(s.drop_last()));
        lemma_member_map_remove(s.drop_last(), i);
        assert(t.last() == s.last());
        assert(s.last().uid != u);
        assert(member_map(t) =~= member_map(s).remove(u));
    }
    assert forall|a: int, b: int| 0 <= a < t.len() && 0 <= b < t.len() && a != b implies #[trigger] t[a].uid != #[trigger] t[b].uid by {
        let a2 = if a < i { a } else { a + 1 };
        let b2 = if b < i { b } else { b + 1 };
        assert(s[a2].uid != s[b2].uid);
    }
}

/// The position of the member with id `uid`.
pub fn member_position(v: &Vec<Member>, uid: &str) -> (r: Option<usize>)
    ensures
        r matches Some(i) ==> i < v@.len() && v@[i as int].uid@ == uid@ && forall|k: int| 0 <= k < i ==> #[trigger] v@[k].uid@ != uid@,
        r is None ==> forall|i: int| 0 <= i < v@.len() ==> #[trigger] v@[i].uid@ != uid@,
{
    let mut i: usize = 0;
    while i < v.len()
        invariant
            i <= v.len(),
            forall|k: int| 0 <= k < i ==> #[trigger] v@[k].uid@ != uid@,
        decreases v.len() - i,
    {
        if str_eq(v[i].uid.as_str(), uid) {
            return Some(i);
        }
        i = i + 1;
    }
    None
}

/// `members.insert(m.uid, m)`: replaces the member with the same id, or adds it.
pub fn insert_member(v: &mut Vec<Member>, m: Member)
    requires
        unique_uids(members_view(old(v)@)),
    ensures
        unique_uids(members_view(final(v)@)),
        member_map(members_view(final(v)@)) == member_map(members_view(old(v)@)).insert(m@.uid, m@),
{
    let ghost mv = m@;
    let ghost before = members_view(v@);
    match member_position(v, m.uid.as_str()) {
        Some(i) => {
            proof {
                lemma_member_map_update(before, i as int, mv);
            }
            v.set(i, m);
            proof {
                assert(members_view(v@) =~= before.update(i as int, mv));
            }
        },
        None => {
            proof {
                lemma_member_map_push(before, mv);
            }
            v.push(m);
            proof {
                assert(members_view(v@) =~= before.push(mv));
            }
        },
    }
}

/// `members.remove(uid)`.
pub fn remove_member(v: &mut Vec<Member>, uid: &str)
    requires
        unique_uids(members_view(old(v)@)),
    ensures
        unique_uids(members_view(final(v)@)),
        member_map(members_view(final(v)@)) == member_map(members_view(old(v)@)).remove(uid@),
{
    let ghost before = members_view(v@);
    match member_position(v, uid) {
        Some(i) => {
            proof {
                lemma_member_map_remove(before, i as int);
            }
            v.remove(i);
            proof {
                assert(members_view(v@) =~= before.remove(i as int));
            }
        },
        None => {
            proof {
                lemma_member_map_dom(before, uid@);
                assert(member_map(before) =~= member_map(before).remove(uid@));
            }
        },
    }
}

} // verus!
