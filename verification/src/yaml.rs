use vstd::prelude::*;

use crate::text::text_eq;

verus! {

/// A YAML document tree. Mappings keep their entries in insertion order, as
/// the YAML library that reads and writes the files does.
pub enum Yaml {
    Null,
    Bool(bool),
    /// A number, kept as its canonical text.
    Number(String),
    String(String),
    Sequence(Vec<Yaml>),
    Mapping(YamlMap),
    Tagged(String, Box<Yaml>),
}

/// The entries of a YAML mapping, in order; no two keys are equal.
pub struct YamlMap {
    pub entries: Vec<(Yaml, Yaml)>,
}

/// What a YAML tree holds, as a mathematical value.
pub enum YamlV {
    Null,
    Bool(bool),
    Number(Seq<char>),
    Str(Seq<char>),
    List(Seq<YamlV>),
    Dict(Seq<(YamlV, YamlV)>),
    Tagged(Seq<char>, Box<YamlV>),
}

pub open spec fn yaml_view(y: Yaml) -> YamlV
    decreases y,
{
    match y {
        Yaml::Null => YamlV::Null,
        Yaml::Bool(b) => YamlV::Bool(b),
        Yaml::Number(s) => YamlV::Number(s@),
        Yaml::String(s) => YamlV::Str(s@),
        Yaml::Sequence(v) => YamlV::List(seq_view(v@)),
        Yaml::Mapping(m) => YamlV::Dict(entries_view(m.entries@)),
        Yaml::Tagged(t, b) => YamlV::Tagged(t@, Box::new(yaml_view(*b))),
    }
}

pub open spec fn seq_view(s: Seq<Yaml>) -> Seq<YamlV>
    decreases s,
{
    if s.len() == 0 {
        seq![]
    } else {
        seq_view(s.drop_last()).push(yaml_view(s.last()))
    }
}

pub open spec fn entries_view(s: Seq<(Yaml, Yaml)>) -> Seq<(YamlV, YamlV)>
    decreases s,
{
    if s.len() == 0 {
        seq![]
    } else {
        entries_view(s.drop_last()).push((yaml_view(s.last().0), yaml_view(s.last().1)))
    }
}

impl View for Yaml {
    type V = YamlV;

    open spec fn view(&self) -> YamlV {
        yaml_view(*self)
    }
}

impl View for YamlMap {
    type V = Seq<(YamlV, YamlV)>;

    open spec fn view(&self) -> Seq<(YamlV, YamlV)> {
        entries_view(self.entries@)
    }
}

pub proof fn lemma_seq_view(s: Seq<Yaml>)
    ensures
        seq_view(s).len() == s.len(),
        forall|i: int| 0 <= i < s.len() ==> #[trigger] seq_view(s)[i] == yaml_view(s[i]),
    decreases s.len(),
{
    if s.len() > 0 {
        lemma_seq_view(s.drop_last());
        assert forall|i: int| 0 <= i < s.len() implies #[trigger] seq_view(s)[i] == yaml_view(s[i]) by {
            if i < s.len() - 1 {
                assert(s.drop_last()[i] == s[i]);
            }
        }
    }
}

pub proof fn lemma_entries_view(s: Seq<(Yaml, Yaml)>)
    ensures
        entries_view(s).len() == s.len(),
        forall|i: int|
            0 <= i < s.len() ==> #[trigger] entries_view(s)[i] == (yaml_view(s[i].0), yaml_view(s[i].1)),
    decreases s.len(),
{
    if s.len() > 0 {
        lemma_entries_view(s.drop_last());
        assert forall|i: int| 0 <= i < s.len() implies #[trigger] entries_view(s)[i] == (
            yaml_view(s[i].0),
            yaml_view(s[i].1),
        ) by {
            if i < s.len() - 1 {
                assert(s.drop_last()[i] == s[i]);
            }
        }
    }
}

pub proof fn lemma_seq_view_push(s: Seq<Yaml>, x: Yaml)
    ensures
        seq_view(s.push(x)) == seq_view(s).push(yaml_view(x)),
{
    assert(s.push(x).drop_last() =~= s);
}

/// Two sequences of trees whose views agree position by position have equal views.
pub proof fn lemma_seq_view_ext(a: Seq<Yaml>, b: Seq<Yaml>)
    requires
        a.len() == b.len(),
        forall|i: int| 0 <= i < a.len() ==> yaml_view(#[trigger] a[i]) == yaml_view(b[i]),
    ensures
        seq_view(a) == seq_view(b),
{
    lemma_seq_view(a);
    lemma_seq_view(b);
    assert(seq_view(a) =~= seq_view(b));
}

pub proof fn lemma_entries_view_ext(a: Seq<(Yaml, Yaml)>, b: Seq<(Yaml, Yaml)>)
    requires
        a.len() == b.len(),
        forall|i: int|
            0 <= i < a.len() ==> yaml_view(#[trigger] a[i].0) == yaml_view(b[i].0) && yaml_view(a[i].1)
                == yaml_view(b[i].1),
    ensures
        entries_view(a) == entries_view(b),
{
    lemma_entries_view(a);
    lemma_entries_view(b);
    assert forall|i: int| 0 <= i < a.len() implies #[trigger] entries_view(a)[i] == entries_view(b)[i] by {
        assert(yaml_view(a[i].0) == yaml_view(b[i].0));
    }
    assert(entries_view(a) =~= entries_view(b));
}

/// The first position at or after `i` whose key is `k`.
pub open spec fn map_find(m: Seq<(YamlV, YamlV)>, k: YamlV, i: int) -> Option<int>
    decreases m.len() - i,
{
    if i < 0 || i >= m.len() {
        None
    } else if m[i].0 == k {
        Some(i)
    } else {
        map_find(m, k, i + 1)
    }
}

/// The value stored under `k`.
pub open spec fn map_get(m: Seq<(YamlV, YamlV)>, k: YamlV) -> Option<YamlV> {
    match map_find(m, k, 0) {
        Some(i) => Some(m[i].1),
        None => None,
    }
}

/// Insertion into an ordered map: a present key keeps its place and takes the
/// new value; a new key goes last.
pub open spec fn map_insert(m: Seq<(YamlV, YamlV)>, k: YamlV, v: YamlV) -> Seq<(YamlV, YamlV)> {
    match map_find(m, k, 0) {
        Some(i) => m.update(i, (m[i].0, v)),
        None => m.push((k, v)),
    }
}

/// Removal from an ordered map by swapping the last entry into the removed one's place.
pub open spec fn map_remove(m: Seq<(YamlV, YamlV)>, k: YamlV) -> Seq<(YamlV, YamlV)> {
    match map_find(m, k, 0) {
        Some(i) => m.update(i, m.last()).drop_last(),
        None => m,
    }
}

pub proof fn lemma_map_find_bound(m: Seq<(YamlV, YamlV)>, k: YamlV, i: int)
    ensures
        map_find(m, k, i) matches Some(j) ==> i <= j < m.len() && m[j].0 == k,
    decreases m.len() - i,
{
    if 0 <= i < m.len() && m[i].0 != k {
        lemma_map_find_bound(m, k, i + 1);
    }
}

/// The value under text key `k` of a tree that is a mapping, looking through tags.
pub open spec fn value_get(y: YamlV, k: Seq<char>) -> Option<YamlV>
    decreases y,
{
    match y {
        YamlV::Dict(m) => map_get(m, YamlV::Str(k)),
        YamlV::Tagged(_, b) => value_get(*b, k),
        _ => None,
    }
}

pub open spec fn opt_yaml_view(r: Option<&Yaml>) -> Option<YamlV> {
    match r {
        Some(y) => Some(y@),
        None => None,
    }
}

impl Yaml {
    /// A copy of the tree.
    pub fn dup(&self) -> (r: Yaml)
        ensures
            r@ == self@,
        decreases self,
    {
        match self {
            Yaml::Null => Yaml::Null,
            Yaml::Bool(b) => Yaml::Bool(*b),
            Yaml::Number(s) => Yaml::Number(s.clone()),
            Yaml::String(s) => Yaml::String(s.clone()),
            Yaml::Sequence(v) => {
                let mut out: Vec<Yaml> = Vec::new();
                let mut i: usize = 0;
                while i < v.len()
                    invariant
                        *self == Yaml::Sequence(*v),
                        0 <= i <= v@.len(),
                        out@.len() == i,
                        forall|j: int| 0 <= j < i ==> yaml_view(#[trigger] out@[j]) == yaml_view(v@[j]),
                    decreases v@.len() - i,
                {
                    assert(decreases_to!(*self => (*self)->Sequence_0));
                    assert((*self)->Sequence_0 == *v);
                    assert(decreases_to!(*v => v@));
                    assert(decreases_to!(v@ => v@[i as int]));
                    assert(decreases_to!(*self => v@[i as int]));
                    let c = v[i].dup();
                    out.push(c);
                    i = i + 1;
                }
                proof {
                    lemma_seq_view_ext(out@, v@);
                }
                Yaml::Sequence(out)
            },
            Yaml::Mapping(m) => {
                assert(decreases_to!(*self => *m));
                Yaml::Mapping(m.dup())
            },
            Yaml::Tagged(t, b) => {
                let inner = (**b).dup();
                Yaml::Tagged(t.clone(), Box::new(inner))
            },
        }
    }

    /// Whether two trees are equal.
    pub fn equals(&self, other: &Yaml) -> (r: bool)
        ensures
            r == (self@ == other@),
        decreases self,
    {
        match (self, other) {
            (Yaml::Null, Yaml::Null) => true,
            (Yaml::Bool(a), Yaml::Bool(b)) => *a == *b,
            (Yaml::Number(a), Yaml::Number(b)) => text_eq(a.as_str(), b.as_str()),
            (Yaml::String(a), Yaml::String(b)) => text_eq(a.as_str(), b.as_str()),
            (Yaml::Sequence(a), Yaml::Sequence(b)) => {
                proof {
                    lemma_seq_view(a@);
                    lemma_seq_view(b@);
                }
                if a.len() != b.len() {
                    assert(self@ == YamlV::List(seq_view(a@)));
                    assert(other@ == YamlV::List(seq_view(b@)));
                    return false;
                }
                let mut i: usize = 0;
                while i < a.len()
                    invariant
                        *self == Yaml::Sequence(*a),
                        *other == Yaml::Sequence(*b),
                        0 <= i <= a@.len(),
                        a@.len() == b@.len(),
                        seq_view(a@).len() == a@.len(),
                        seq_view(b@).len() == b@.len(),
                        forall|j: int| 0 <= j < a@.len() ==> #[trigger] seq_view(a@)[j] == yaml_view(a@[j]),
                        forall|j: int| 0 <= j < b@.len() ==> #[trigger] seq_view(b@)[j] == yaml_view(b@[j]),
                        forall|j: int| 0 <= j < i ==> yaml_view(#[trigger] a@[j]) == yaml_view(b@[j]),
                    decreases a@.len() - i,
                {
                    assert(decreases_to!(*self => *a));
                    assert(decreases_to!(*a => a@));
                    assert(decreases_to!(a@ => a@[i as int]));
                    assert(decreases_to!(*self => a@[i as int]));
                    if !a[i].equals(&b[i]) {
                        assert(seq_view(a@)[i as int] != seq_view(b@)[i as int]);
                        assert(self@ == YamlV::List(seq_view(a@)));
                        assert(other@ == YamlV::List(seq_view(b@)));
                        return false;
                    }
                    i = i + 1;
                }
                proof {
                    lemma_seq_view_ext(a@, b@);
                }
                true
            },
            (Yaml::Mapping(a), Yaml::Mapping(b)) => {
                assert(decreases_to!(*self => *a));
                a.equals(b)
            },
            (Yaml::Tagged(t1, b1), Yaml::Tagged(t2, b2)) => {
                text_eq(t1.as_str(), t2.as_str()) && (**b1).equals(&**b2)
            },
            _ => false,
        }
    }

    /// Whether the tree is the text `s`.
    pub fn is_str(&self, s: &str) -> (r: bool)
        ensures
            r == (self@ == YamlV::Str(s@)),
    {
        match self {
            Yaml::String(t) => text_eq(t.as_str(), s),
            _ => false,
        }
    }

    /// The value under text key `k`, when the tree is a mapping (a tagged
    /// tree is looked into).
    pub fn get(&self, k: &str) -> (r: Option<&Yaml>)
        ensures
            opt_yaml_view(r) == value_get(self@, k@),
        decreases self,
    {
        match self {
            Yaml::Mapping(m) => m.get(k),
            Yaml::Tagged(_, b) => (**b).get(k),
            _ => None,
        }
    }

    /// The text, when the tree is a string.
    pub fn as_str(&self) -> (r: Option<&str>)
        ensures
            match self@ {
                YamlV::Str(s) => r matches Some(t) && t@ == s,
                _ => r is None,
            },
    {
        match self {
            Yaml::String(s) => Some(s.as_str()),
            _ => None,
        }
    }
}

impl YamlMap {
    pub fn new() -> (r: YamlMap)
        ensures
            r@ == Seq::<(YamlV, YamlV)>::empty(),
    {
        YamlMap { entries: Vec::new() }
    }

    /// A copy of the mapping.
    pub fn dup(&self) -> (r: YamlMap)
        ensures
            r@ == self@,
        decreases self,
    {
        let mut out: Vec<(Yaml, Yaml)> = Vec::new();
        let mut i: usize = 0;
        while i < self.entries.len()
            invariant
                0 <= i <= self.entries@.len(),
                out@.len() == i,
                forall|j: int|
                    0 <= j < i ==> yaml_view(#[trigger] out@[j].0) == yaml_view(self.entries@[j].0)
                        && yaml_view(out@[j].1) == yaml_view(self.entries@[j].1),
            decreases self.entries@.len() - i,
        {
            assert(decreases_to!(*self => self.entries@[i as int].0));
            assert(decreases_to!(*self => self.entries@[i as int].1));
            let k = self.entries[i].0.dup();
            let v = self.entries[i].1.dup();
            out.push((k, v));
            i = i + 1;
        }
        proof {
            lemma_entries_view_ext(out@, self.entries@);
        }
        YamlMap { entries: out }
    }

    /// Whether two mappings hold equal entries in the same order.
    pub fn equals(&self, other: &YamlMap) -> (r: bool)
        ensures
            r == (self@ == other@),
        decreases self,
    {
        let a = &self.entries;
        let b = &other.entries;
        proof {
            lemma_entries_view(a@);
            lemma_entries_view(b@);
        }
        if a.len() != b.len() {
            return false;
        }
        let mut i: usize = 0;
        while i < a.len()
            invariant
                a == &self.entries,
                b == &other.entries,
                0 <= i <= a@.len(),
                a@.len() == b@.len(),
                entries_view(a@).len() == a@.len(),
                entries_view(b@).len() == b@.len(),
                forall|j: int|
                    0 <= j < a@.len() ==> #[trigger] entries_view(a@)[j] == (
                        yaml_view(a@[j].0),
                        yaml_view(a@[j].1),
                    ),
                forall|j: int|
                    0 <= j < b@.len() ==> #[trigger] entries_view(b@)[j] == (
                        yaml_view(b@[j].0),
                        yaml_view(b@[j].1),
                    ),
                forall|j: int|
                    0 <= j < i ==> yaml_view(#[trigger] a@[j].0) == yaml_view(b@[j].0) && yaml_view(
                        a@[j].1,
                    ) == yaml_view(b@[j].1),
            decreases a@.len() - i,
        {
            assert(decreases_to!(*self => self.entries@[i as int].0));
            assert(decreases_to!(*self => self.entries@[i as int].1));
            if !a[i].0.equals(&b[i].0) || !a[i].1.equals(&b[i].1) {
                assert(entries_view(a@)[i as int] != entries_view(b@)[i as int]);
                assert(self@ == entries_view(a@));
                assert(other@ == entries_view(b@));
                return false;
            }
            i = i + 1;
        }
        proof {
            lemma_entries_view_ext(a@, b@);
        }
        true
    }

    /// The position of key `k`.
    pub fn find(&self, k: &Yaml) -> (r: Option<usize>)
        ensures
            match r {
                Some(i) => map_find(self@, k@, 0) == Some(i as int),
                None => map_find(self@, k@, 0) is None,
            },
    {
        proof {
            lemma_entries_view(self.entries@);
        }
        let mut i: usize = 0;
        while i < self.entries.len()
            invariant
                0 <= i <= self.entries@.len(),
                entries_view(self.entries@).len() == self.entries@.len(),
                forall|j: int|
                    0 <= j < self.entries@.len() ==> #[trigger] entries_view(self.entries@)[j] == (
                        yaml_view(self.entries@[j].0),
                        yaml_view(self.entries@[j].1),
                    ),
                map_find(self@, k@, 0) == map_find(self@, k@, i as int),
            decreases self.entries@.len() - i,
        {
            assert(entries_view(self.entries@)[i as int].0 == yaml_view(self.entries@[i as int].0));
            if self.entries[i].0.equals(k) {
                return Some(i);
            }
            i = i + 1;
        }
        None
    }

    /// The position of text key `k`.
    pub fn find_str(&self, k: &str) -> (r: Option<usize>)
        ensures
            match r {
                Some(i) => map_find(self@, YamlV::Str(k@), 0) == Some(i as int),
                None => map_find(self@, YamlV::Str(k@), 0) is None,
            },
    {
        proof {
            lemma_entries_view(self.entries@);
        }
        let mut i: usize = 0;
        while i < self.entries.len()
            invariant
                0 <= i <= self.entries@.len(),
                entries_view(self.entries@).len() == self.entries@.len(),
                forall|j: int|
                    0 <= j < self.entries@.len() ==> #[trigger] entries_view(self.entries@)[j] == (
                        yaml_view(self.entries@[j].0),
                        yaml_view(self.entries@[j].1),
                    ),
                map_find(self@, YamlV::Str(k@), 0) == map_find(self@, YamlV::Str(k@), i as int),
            decreases self.entries@.len() - i,
        {
            assert(entries_view(self.entries@)[i as int].0 == yaml_view(self.entries@[i as int].0));
            if self.entries[i].0.is_str(k) {
                return Some(i);
            }
            i = i + 1;
        }
        None
    }

    /// The value under text key `k`.
    pub fn get(&self, k: &str) -> (r: Option<&Yaml>)
        ensures
            opt_yaml_view(r) == map_get(self@, YamlV::Str(k@)),
    {
        proof {
            lemma_entries_view(self.entries@);
            lemma_map_find_bound(self@, YamlV::Str(k@), 0);
        }
        match self.find_str(k) {
            Some(i) => Some(&self.entries[i].1),
            None => None,
        }
    }

    /// Whether text key `k` is present.
    pub fn contains_key(&self, k: &str) -> (r: bool)
        ensures
            r == (map_find(self@, YamlV::Str(k@), 0) is Some),
    {
        self.find_str(k).is_some()
    }

    /// Inserts `v` under `k`: in place when the key is present, last otherwise.
    pub fn insert(&mut self, k: Yaml, v: Yaml)
        ensures
            final(self)@ == map_insert(old(self)@, k@, v@),
    {
        proof {
            lemma_entries_view(self.entries@);
            lemma_map_find_bound(self@, k@, 0);
        }
        match self.find(&k) {
            Some(i) => {
                let ghost before = self.entries@;
                let key = self.entries[i].0.dup();
                self.entries.set(i, (key, v));
                proof {
                    lemma_entries_view(self.entries@);
                    assert(entries_view(self.entries@) =~= map_insert(entries_view(before), k@, v@));
                }
            },
            None => {
                let ghost before = self.entries@;
                self.entries.push((k, v));
                proof {
                    lemma_entries_view(self.entries@);
                    assert(entries_view(self.entries@) =~= map_insert(entries_view(before), k@, v@));
                }
            },
        }
    }

    /// Removes text key `k`, moving the last entry into its place; returns its value.
    pub fn remove(&mut self, k: &str) -> (r: Option<Yaml>)
        ensures
            final(self)@ == map_remove(old(self)@, YamlV::Str(k@)),
            match r {
                Some(y) => map_get(old(self)@, YamlV::Str(k@)) == Some(y@),
                None => map_get(old(self)@, YamlV::Str(k@)) is None,
            },
    {
        proof {
            lemma_entries_view(self.entries@);
            lemma_map_find_bound(self@, YamlV::Str(k@), 0);
        }
        match self.find_str(k) {
            Some(i) => {
                let ghost before = self.entries@;
                let (_, v) = self.entries.swap_remove(i);
                proof {
                    lemma_entries_view(self.entries@);
                    assert(entries_view(self.entries@) =~= map_remove(entries_view(before), YamlV::Str(k@)));
                }
                Some(v)
            },
            None => None,
        }
    }

    pub fn len(&self) -> (r: usize)
        ensures
            r == self@.len(),
    {
        proof {
            lemma_entries_view(self.entries@);
        }
        self.entries.len()
    }

    pub fn is_empty(&self) -> (r: bool)
        ensures
            r == (self@.len() == 0),
    {
        proof {
            lemma_entries_view(self.entries@);
        }
        self.entries.len() == 0
    }
}

} // verus!
