//! A JSON document as the library reads it: the Matrix server's responses
//! and events, with object members kept in the order in which the parser
//! hands them over.
use vstd::prelude::*;

verus! {

/// A JSON value.
pub enum Json {
    Null,
    Bool(bool),
    /// A number that fits in an `i64`.
    Int(i64),
    /// Any other number, by its text.
    Number(String),
    Str(String),
    Array(Vec<Json>),
    /// Members in the order the parser hands them over; a parser that
    /// keeps one value per name gives each name once.
    Object(Vec<(String, Json)>),
}

/// The mathematical value of a [`Json`].
pub enum JsonV {
    Null,
    Bool(bool),
    Int(int),
    Number(Seq<char>),
    Str(Seq<char>),
    Array(Seq<JsonV>),
    Object(Seq<(Seq<char>, JsonV)>),
}

impl Json {
    pub open spec fn view(self) -> JsonV
        decreases self, 0int,
    {
        match self {
            Json::Null => JsonV::Null,
            Json::Bool(b) => JsonV::Bool(b),
            Json::Int(n) => JsonV::Int(n as int),
            Json::Number(s) => JsonV::Number(s@),
            Json::Str(s) => JsonV::Str(s@),
            Json::Array(v) => JsonV::Array(view_items(v@)),
            Json::Object(m) => JsonV::Object(view_members(m@)),
        }
    }
}

pub open spec fn view_items(s: Seq<Json>) -> Seq<JsonV>
    decreases s, 1int,
{
    if s.len() == 0 {
        Seq::empty()
    } else {
        seq![s[0].view()] + view_items(s.drop_first())
    }
}

pub open spec fn view_members(s: Seq<(String, Json)>) -> Seq<(Seq<char>, JsonV)>
    decreases s, 1int,
{
    if s.len() == 0 {
        Seq::empty()
    } else {
        seq![(s[0].0@, s[0].1.view())] + view_members(s.drop_first())
    }
}


impl JsonV {
    /// `value[key]`: the member `key` of an object, `Null` when absent or not an object.
    pub open spec fn field(self, key: Seq<char>) -> JsonV {
        match self {
            JsonV::Object(m) => member_lookup(m, key),
            _ => JsonV::Null,
        }
    }

    pub open spec fn str_of(self) -> Option<Seq<char>> {
        match self {
            JsonV::Str(s) => Some(s),
            _ => None,
        }
    }

    pub open spec fn i64_of(self) -> Option<int> {
        match self {
            JsonV::Int(n) => Some(n),
            _ => None,
        }
    }

    pub open spec fn bool_of(self) -> Option<bool> {
        match self {
            JsonV::Bool(b) => Some(b),
            _ => None,
        }
    }

    /// The value is an object with a member named `key` (whatever its value).
    pub open spec fn has_key(self, key: Seq<char>) -> bool {
        match self {
            JsonV::Object(m) => member_has(m, key),
            _ => false,
        }
    }

    /// `value == t` for a string `t`: true only for a string equal to `t`.
    pub open spec fn is_text(self, t: Seq<char>) -> bool {
        self.str_of() == Some(t)
    }

    /// The string, or `dflt` when the value is not a string.
    pub open spec fn str_or(self, dflt: Seq<char>) -> Seq<char> {
        match self.str_of() {
            Some(s) => s,
            None => dflt,
        }
    }
}

/// Some member is named `key`.
pub open spec fn member_has(m: Seq<(Seq<char>, JsonV)>, key: Seq<char>) -> bool {
    exists|i: int| 0 <= i < m.len() && (#[trigger] m[i]).0 == key
}

/// The value of the first member named `key`, `Null` when there is none.
pub open spec fn member_lookup(m: Seq<(Seq<char>, JsonV)>, key: Seq<char>) -> JsonV
    decreases m.len(),
{
    if m.len() == 0 {
        JsonV::Null
    } else if m[0].0 == key {
        m[0].1
    } else {
        member_lookup(m.drop_first(), key)
    }
}

pub proof fn lemma_view_items(s: Seq<Json>)
    ensures
        view_items(s).len() == s.len(),
        forall|i: int| 0 <= i < s.len() ==> #[trigger] view_items(s)[i] == s[i].view(),
    decreases s.len(),
{
    if s.len() > 0 {
        lemma_view_items(s.drop_first());
        assert forall|i: int| 0 <= i < s.len() implies #[trigger] view_items(s)[i] == s[i].view() by {
            if i > 0 {
                assert(s.drop_first()[i - 1] == s[i]);
            }
        }
    }
}

pub proof fn lemma_view_members(s: Seq<(String, Json)>)
    ensures
        view_members(s).len() == s.len(),
        forall|i: int| 0 <= i < s.len() ==> #[trigger] view_members(s)[i] == (s[i].0@, s[i].1.view()),
    decreases s.len(),
{
    if s.len() > 0 {
        lemma_view_members(s.drop_first());
        assert forall|i: int| 0 <= i < s.len() implies #[trigger] view_members(s)[i] == (s[i].0@, s[i].1.view()) by {
            if i > 0 {
                assert(s.drop_first()[i - 1] == s[i]);
            }
        }
    }
}

/// `member_lookup` on a prefix that holds no member named `key` skips it.
pub proof fn lemma_lookup_skip(m: Seq<(Seq<char>, JsonV)>, key: Seq<char>, i: int)
    requires
        0 <= i <= m.len(),
        forall|j: int| 0 <= j < i ==> #[trigger] m[j].0 != key,
    ensures
        member_lookup(m, key) == member_lookup(m.subrange(i, m.len() as int), key),
    decreases i,
{
    if i > 0 {
        assert(m.drop_first().subrange(i - 1, m.drop_first().len() as int) =~= m.subrange(i, m.len() as int));
        lemma_lookup_skip(m.drop_first(), key, i - 1);
    } else {
        assert(m.subrange(0, m.len() as int) =~= m);
    }
}

/// String equality: the same characters in the same order.
pub(crate) fn str_eq(a: &str, b: &str) -> (r: bool)
    ensures
        r == (a@ == b@),
{
    let av = crate::text::chars_of(a);
    let bv = crate::text::chars_of(b);
    if av.len() != bv.len() {
        return false;
    }
    let r = crate::text::run_at(&av, 0, &bv);
    proof {
        assert(av@.subrange(0, bv@.len() as int) =~= av@);
    }
    r
}

impl Json {
    /// `self[key]`, as `None` where that is `Null` because the member is absent.
    pub fn get(&self, key: &str) -> (r: Option<&Json>)
        ensures
            r matches Some(v) ==> v.view() == self.view().field(key@),
            r is None ==> self.view().field(key@) == JsonV::Null,
    {
        match self {
            Json::Object(m) => {
                let ghost mv = view_members(m@);
                proof {
                    lemma_view_members(m@);
                }
                let mut i: usize = 0;
                while i < m.len()
                    invariant
                        i <= m.len(),
                        mv == view_members(m@),
                        self.view() == JsonV::Object(mv),
                        mv.len() == m@.len(),
                        forall|k: int| 0 <= k < m@.len() ==> #[trigger] mv[k] == (m@[k].0@, m@[k].1.view()),
                        forall|j: int| 0 <= j < i ==> #[trigger] mv[j].0 != key@,
                    decreases m.len() - i,
                {
                    if str_eq(m[i].0.as_str(), key) {
                        proof {
                            lemma_lookup_skip(mv, key@, i as int);
                            let sub = mv.subrange(i as int, mv.len() as int);
                            assert(sub[0] == mv[i as int]);
                            assert(sub[0].0 == key@);
                            assert(member_lookup(sub, key@) == sub[0].1);

                        }
                        return Some(&m[i].1);
                    }
                    i = i + 1;
                }
                proof {
                    lemma_lookup_skip(mv, key@, mv.len() as int);
                }
                None
            },
            _ => None,
        }
    }

    /// `self.get(key).is_some()`: whether this is an object with a member `key`.
    pub fn has_key(&self, key: &str) -> (r: bool)
        ensures
            r == self.view().has_key(key@),
    {
        match self {
            Json::Object(m) => {
                let ghost mv = view_members(m@);
                proof {
                    lemma_view_members(m@);
                }
                let mut i: usize = 0;
                while i < m.len()
                    invariant
                        i <= m.len(),
                        mv == view_members(m@),
                        self.view() == JsonV::Object(mv),
                        mv.len() == m@.len(),
                        forall|k: int| 0 <= k < m@.len() ==> #[trigger] mv[k] == (m@[k].0@, m@[k].1.view()),
                        forall|j: int| 0 <= j < i ==> #[trigger] mv[j].0 != key@,
                    decreases m.len() - i,
                {
                    if str_eq(m[i].0.as_str(), key) {
                        assert(mv[i as int].0 == key@);
                        assert(member_has(mv, key@));
                        return true;
                    }
                    i = i + 1;
                }
                assert(!member_has(mv, key@));
                false
            },
            _ => false,
        }
    }

    pub fn as_str(&self) -> (r: Option<&str>)
        ensures
            r matches Some(s) ==> self.view().str_of() == Some(s@),
            r is None ==> self.view().str_of() is None,
    {
        match self {
            Json::Str(s) => Some(s.as_str()),
            _ => None,
        }
    }

    pub fn as_i64(&self) -> (r: Option<i64>)
        ensures
            r matches Some(n) ==> self.view().i64_of() == Some(n as int),
            r is None ==> self.view().i64_of() is None,
    {
        match self {
            Json::Int(n) => Some(*n),
            _ => None,
        }
    }

    pub fn as_bool(&self) -> (r: Option<bool>)
        ensures
            r == self.view().bool_of(),
    {
        match self {
            Json::Bool(b) => Some(*b),
            _ => None,
        }
    }

    pub fn as_array(&self) -> (r: Option<&Vec<Json>>)
        ensures
            r matches Some(v) ==> self.view() == JsonV::Array(view_items(v@)),
            r is None ==> !(self.view() is Array),
    {
        match self {
            Json::Array(v) => Some(v),
            _ => None,
        }
    }

    pub fn as_object(&self) -> (r: Option<&Vec<(String, Json)>>)
        ensures
            r matches Some(m) ==> self.view() == JsonV::Object(view_members(m@)),
            r is None ==> !(self.view() is Object),
    {
        match self {
            Json::Object(m) => Some(m),
            _ => None,
        }
    }

    /// `self == t` for a string `t`.
    pub fn is_text(&self, t: &str) -> (r: bool)
        ensures
            r == self.view().is_text(t@),
    {
        match self {
            Json::Str(s) => str_eq(s.as_str(), t),
            _ => false,
        }
    }

    /// `self[key] == t`.
    pub fn field_is(&self, key: &str, t: &str) -> (r: bool)
        ensures
            r == self.view().field(key@).is_text(t@),
    {
        match self.get(key) {
            Some(v) => v.is_text(t),
            None => false,
        }
    }

    /// `self[key].as_str()`.
    pub fn field_str(&self, key: &str) -> (r: Option<&str>)
        ensures
            r matches Some(s) ==> self.view().field(key@).str_of() == Some(s@),
            r is None ==> self.view().field(key@).str_of() is None,
    {
        match self.get(key) {
            Some(v) => v.as_str(),
            None => None,
        }
    }

    /// A copy of this value.
    pub fn duplicate(&self) -> (r: Json)
        ensures
            r.view() == self.view(),
        decreases self,
    {
        match self {
            Json::Null => Json::Null,
            Json::Bool(b) => Json::Bool(*b),
            Json::Int(n) => Json::Int(*n),
            Json::Number(s) => Json::Number(s.clone()),
            Json::Str(s) => Json::Str(s.clone()),
            Json::Array(v) => {
                let mut out: Vec<Json> = Vec::new();
                let mut i: usize = 0;
                proof {
                    lemma_view_items(v@);
                }
                while i < v.len()
                    invariant
                        i <= v.len(),
                        out@.len() == i,
                        *self == Json::Array(*v),
                        forall|k: int| 0 <= k < i ==> #[trigger] out@[k].view() == v@[k].view(),
                    decreases v.len() - i,
                {
                    proof {
                        broadcast use vstd::std_specs::vec::axiom_vec_index_decreases;
                        assert(decreases_to!(*self => self->Array_0));
                        assert(decreases_to!(self->Array_0 => self->Array_0[i as int]));
                    }
                    let c = v[i].duplicate();
                    out.push(c);
                    i = i + 1;
                }
                proof {
                    lemma_view_items(out@);
                    assert(view_items(out@) =~= view_items(v@));
                }
                Json::Array(out)
            },
            Json::Object(m) => {
                let mut out: Vec<(String, Json)> = Vec::new();
                let mut i: usize = 0;
                proof {
                    lemma_view_members(m@);
                }
                while i < m.len()
                    invariant
                        i <= m.len(),
                        out@.len() == i,
                        *self == Json::Object(*m),
                        forall|k: int| 0 <= k < i ==> #[trigger] out@[k].0@ == m@[k].0@,
                        forall|k: int| 0 <= k < i ==> #[trigger] out@[k].1.view() == m@[k].1.view(),
                    decreases m.len() - i,
                {
                    proof {
                        broadcast use vstd::std_specs::vec::axiom_vec_index_decreases;
                        assert(decreases_to!(*self => self->Object_0));
                        assert(decreases_to!(self->Object_0 => self->Object_0[i as int]));
                        assert(decreases_to!(self->Object_0[i as int] => self->Object_0[i as int].1));
                    }
                    let c = m[i].1.duplicate();
                    out.push((m[i].0.clone(), c));
                    i = i + 1;
                }
                proof {
                    lemma_view_members(out@);
                    assert(view_members(out@) =~= view_members(m@));
                }
                Json::Object(out)
            },
        }
    }
}

} // verus!
