use vstd::prelude::*;

use crate::text::{text_eq, text_to_string};

verus! {

/// A JSON document tree. Object members keep the order in which they were set.
pub enum Json {
    Null,
    Bool(bool),
    /// A number, kept as its canonical text.
    Number(String),
    Str(String),
    Array(Vec<Json>),
    Object(Vec<(String, Json)>),
}

/// What a JSON tree holds, as a mathematical value.
pub enum JsonV {
    Null,
    Bool(bool),
    Number(Seq<char>),
    Str(Seq<char>),
    Array(Seq<JsonV>),
    Object(Seq<(Seq<char>, JsonV)>),
}

pub open spec fn json_view(j: Json) -> JsonV
    decreases j,
{
    match j {
        Json::Null => JsonV::Null,
        Json::Bool(b) => JsonV::Bool(b),
        Json::Number(s) => JsonV::Number(s@),
        Json::Str(s) => JsonV::Str(s@),
        Json::Array(v) => JsonV::Array(jseq_view(v@)),
        Json::Object(m) => JsonV::Object(members_view(m@)),
    }
}

pub open spec fn jseq_view(s: Seq<Json>) -> Seq<JsonV>
    decreases s,
{
    if s.len() == 0 {
        seq![]
    } else {
        jseq_view(s.drop_last()).push(json_view(s.last()))
    }
}

pub open spec fn members_view(s: Seq<(String, Json)>) -> Seq<(Seq<char>, JsonV)>
    decreases s,
{
    if s.len() == 0 {
        seq![]
    } else {
        members_view(s.drop_last()).push((s.last().0@, json_view(s.last().1)))
    }
}

impl View for Json {
    type V = JsonV;

    open spec fn view(&self) -> JsonV {
        json_view(*self)
    }
}

pub proof fn lemma_jseq_view(s: Seq<Json>)
    ensures
        jseq_view(s).len() == s.len(),
        forall|i: int| 0 <= i < s.len() ==> #[trigger] jseq_view(s)[i] == json_view(s[i]),
    decreases s.len(),
{
    if s.len() > 0 {
        lemma_jseq_view(s.drop_last());
        assert forall|i: int| 0 <= i < s.len() implies #[trigger] jseq_view(s)[i] == json_view(s[i]) by {
            if i < s.len() - 1 {
                assert(s.drop_last()[i] == s[i]);
            }
        }
    }
}

pub proof fn lemma_members_view(s: Seq<(String, Json)>)
    ensures
        members_view(s).len() == s.len(),
        forall|i: int| 0 <= i < s.len() ==> #[trigger] members_view(s)[i] == (s[i].0@, json_view(s[i].1)),
    decreases s.len(),
{
    if s.len() > 0 {
        lemma_members_view(s.drop_last());
        assert forall|i: int| 0 <= i < s.len() implies #[trigger] members_view(s)[i] == (
            s[i].0@,
            json_view(s[i].1),
        ) by {
            if i < s.len() - 1 {
                assert(s.drop_last()[i] == s[i]);
            }
        }
    }
}

pub proof fn lemma_jseq_view_push(s: Seq<Json>, x: Json)
    ensures
        jseq_view(s.push(x)) == jseq_view(s).push(json_view(x)),
{
    assert(s.push(x).drop_last() =~= s);
}

pub proof fn lemma_members_view_push(s: Seq<(String, Json)>, x: (String, Json))
    ensures
        members_view(s.push(x)) == members_view(s).push((x.0@, json_view(x.1))),
{
    assert(s.push(x).drop_last() =~= s);
}

/// The first position at or after `i` of member `k`.
pub open spec fn member_find(m: Seq<(Seq<char>, JsonV)>, k: Seq<char>, i: int) -> Option<int>
    decreases m.len() - i,
{
    if i < 0 || i >= m.len() {
        None
    } else if m[i].0 == k {
        Some(i)
    } else {
        member_find(m, k, i + 1)
    }
}

/// The value of member `k`.
pub open spec fn member_get(m: Seq<(Seq<char>, JsonV)>, k: Seq<char>) -> Option<JsonV> {
    match member_find(m, k, 0) {
        Some(i) => Some(m[i].1),
        None => None,
    }
}

/// Sets member `k`: a present member keeps its place, a new one goes last.
pub open spec fn member_set(m: Seq<(Seq<char>, JsonV)>, k: Seq<char>, v: JsonV) -> Seq<(Seq<char>, JsonV)> {
    match member_find(m, k, 0) {
        Some(i) => m.update(i, (k, v)),
        None => m.push((k, v)),
    }
}

/// The value of member `k` of a tree that is an object.
pub open spec fn jget(j: JsonV, k: Seq<char>) -> Option<JsonV> {
    match j {
        JsonV::Object(m) => member_get(m, k),
        _ => None,
    }
}

pub proof fn lemma_member_find_bound(m: Seq<(Seq<char>, JsonV)>, k: Seq<char>, i: int)
    ensures
        member_find(m, k, i) matches Some(j) ==> i <= j < m.len() && m[j].0 == k,
    decreases m.len() - i,
{
    if 0 <= i < m.len() && m[i].0 != k {
        lemma_member_find_bound(m, k, i + 1);
    }
}

/// The position of member `k` in an exec member list.
pub fn members_find(m: &Vec<(String, Json)>, k: &str) -> (r: Option<usize>)
    ensures
        match r {
            Some(i) => i < m@.len() && member_find(members_view(m@), k@, 0) == Some(i as int),
            None => member_find(members_view(m@), k@, 0) is None,
        },
{
    proof {
        lemma_members_view(m@);
    }
    let mut i: usize = 0;
    while i < m.len()
        invariant
            i <= m@.len(),
            members_view(m@).len() == m@.len(),
            forall|j: int| 0 <= j < m@.len() ==> #[trigger] members_view(m@)[j] == (m@[j].0@, json_view(m@[j].1)),
            member_find(members_view(m@), k@, 0) == member_find(members_view(m@), k@, i as int),
        decreases m@.len() - i,
    {
        assert(members_view(m@)[i as int].0 == m@[i as int].0@);
        if text_eq(m[i].0.as_str(), k) {
            return Some(i);
        }
        i = i + 1;
    }
    None
}

/// Sets member `k` of an exec member list.
pub fn members_set(m: &mut Vec<(String, Json)>, k: &str, v: Json)
    ensures
        members_view(final(m)@) == member_set(members_view(old(m)@), k@, v@),
{
    proof {
        lemma_members_view(m@);
        lemma_member_find_bound(members_view(m@), k@, 0);
    }
    let ghost before = m@;
    match members_find(m, k) {
        Some(i) => {
            m.set(i, (text_to_string(k), v));
            proof {
                lemma_members_view(m@);
                assert(members_view(m@) =~= member_set(members_view(before), k@, v@));
            }
        },
        None => {
            let ghost vv = v@;
            let entry = (text_to_string(k), v);
            m.push(entry);
            proof {
                lemma_members_view_push(before, entry);
            }
        },
    }
}

impl Json {
    /// A copy of the tree.
    pub fn dup(&self) -> (r: Json)
        ensures
            r@ == self@,
        decreases self,
    {
        match self {
            Json::Null => Json::Null,
            Json::Bool(b) => Json::Bool(*b),
            Json::Number(s) => Json::Number(s.clone()),
            Json::Str(s) => Json::Str(s.clone()),
            Json::Array(v) => {
                let mut out: Vec<Json> = Vec::new();
                let mut i: usize = 0;
                while i < v.len()
                    invariant
                        *self == Json::Array(*v),
                        0 <= i <= v@.len(),
                        out@.len() == i,
                        forall|j: int| 0 <= j < i ==> json_view(#[trigger] out@[j]) == json_view(v@[j]),
                    decreases v@.len() - i,
                {
                    assert(decreases_to!(*self => (*self)->Array_0));
                    assert(decreases_to!(*v => v@));
                    assert(decreases_to!(v@ => v@[i as int]));
                    let c = v[i].dup();
                    out.push(c);
                    i = i + 1;
                }
                proof {
                    lemma_jseq_view(out@);
                    lemma_jseq_view(v@);
                    assert(jseq_view(out@) =~= jseq_view(v@));
                }
                Json::Array(out)
            },
            Json::Object(m) => {
                let mut out: Vec<(String, Json)> = Vec::new();
                let mut i: usize = 0;
                while i < m.len()
                    invariant
                        *self == Json::Object(*m),
                        0 <= i <= m@.len(),
                        out@.len() == i,
                        forall|j: int|
                            0 <= j < i ==> (#[trigger] out@[j]).0@ == m@[j].0@ && json_view(out@[j].1)
                                == json_view(m@[j].1),
                    decreases m@.len() - i,
                {
                    assert(decreases_to!(*self => (*self)->Object_0));
                    assert(decreases_to!(*m => m@));
                    assert(decreases_to!(m@ => m@[i as int]));
                    assert(decreases_to!(m@[i as int] => m@[i as int].1));
                    let c = m[i].1.dup();
                    out.push((m[i].0.clone(), c));
                    i = i + 1;
                }
                proof {
                    lemma_members_view(out@);
                    lemma_members_view(m@);
                    assert(members_view(out@) =~= members_view(m@));
                }
                Json::Object(out)
            },
        }
    }

    /// The value of member `k`, when the tree is an object.
    pub fn get(&self, k: &str) -> (r: Option<&Json>)
        ensures
            match r {
                Some(v) => jget(self@, k@) == Some(v@),
                None => jget(self@, k@) is None,
            },
    {
        match self {
            Json::Object(m) => {
                proof {
                    lemma_members_view(m@);
                    lemma_member_find_bound(members_view(m@), k@, 0);
                }
                match members_find(m, k) {
                    Some(i) => Some(&m[i].1),
                    None => None,
                }
            },
            _ => None,
        }
    }

    /// The text, when the tree is a string.
    pub fn as_str(&self) -> (r: Option<&str>)
        ensures
            match self@ {
                JsonV::Str(s) => r matches Some(t) && t@ == s,
                _ => r is None,
            },
    {
        match self {
            Json::Str(s) => Some(s.as_str()),
            _ => None,
        }
    }
}

} // verus!
