//! A YAML document as the patch logic reads it.
use vstd::prelude::*;
use crate::text::str_eq;

verus! {

/// A YAML node.
#[derive(Debug)]
pub enum Yaml {
    Real(String),
    Integer(i64),
    String(String),
    Boolean(bool),
    Array(Vec<Yaml>),
    Hash(YamlHash),
    Alias(usize),
    Null,
    BadValue,
}

/// A YAML mapping: its entries in insertion order.
#[derive(Debug)]
pub struct YamlHash {
    pub entries: Vec<(Yaml, Yaml)>,
}

/// The mathematical content of a [`Yaml`] node.
pub enum YamlV {
    Real(Seq<char>),
    Integer(i64),
    Str(Seq<char>),
    Boolean(bool),
    Array(Seq<YamlV>),
    Hash(Seq<(YamlV, YamlV)>),
    Alias(usize),
    Null,
    BadValue,
}

/// The content of a node.
pub open spec fn yv(y: Yaml) -> YamlV
    decreases y,
{
    match y {
        Yaml::Real(s) => YamlV::Real(s@),
        Yaml::Integer(i) => YamlV::Integer(i),
        Yaml::String(s) => YamlV::Str(s@),
        Yaml::Boolean(b) => YamlV::Boolean(b),
        Yaml::Array(a) => YamlV::Array(yv_seq(a@)),
        Yaml::Hash(h) => YamlV::Hash(yv_pairs(h.entries@)),
        Yaml::Alias(n) => YamlV::Alias(n),
        Yaml::Null => YamlV::Null,
        Yaml::BadValue => YamlV::BadValue,
    }
}

/// The contents of a sequence of nodes.
pub open spec fn yv_seq(s: Seq<Yaml>) -> Seq<YamlV>
    decreases s,
{
    if s.len() == 0 {
        Seq::empty()
    } else {
        yv_seq(s.drop_last()).push(yv(s.last()))
    }
}

/// The contents of a sequence of entries.
pub open spec fn yv_pairs(s: Seq<(Yaml, Yaml)>) -> Seq<(YamlV, YamlV)>
    decreases s,
{
    if s.len() == 0 {
        Seq::empty()
    } else {
        yv_pairs(s.drop_last()).push((yv(s.last().0), yv(s.last().1)))
    }
}

pub broadcast proof fn lemma_yv_seq(s: Seq<Yaml>)
    ensures
        #[trigger] yv_seq(s).len() == s.len(),
        forall|i: int| 0 <= i < s.len() ==> #[trigger] yv_seq(s)[i] == yv(s[i]),
    decreases s.len(),
{
    if s.len() > 0 {
        lemma_yv_seq(s.drop_last());
        assert forall|i: int| 0 <= i < s.len() implies #[trigger] yv_seq(s)[i] == yv(s[i]) by {
            if i < s.len() - 1 {
                assert(s.drop_last()[i] == s[i]);
            }
        }
    }
}

pub broadcast proof fn lemma_yv_pairs(s: Seq<(Yaml, Yaml)>)
    ensures
        #[trigger] yv_pairs(s).len() == s.len(),
        forall|i: int| 0 <= i < s.len() ==> #[trigger] yv_pairs(s)[i] == (yv(s[i].0), yv(s[i].1)),
    decreases s.len(),
{
    if s.len() > 0 {
        lemma_yv_pairs(s.drop_last());
        assert forall|i: int| 0 <= i < s.len() implies #[trigger] yv_pairs(s)[i] == (yv(s[i].0), yv(s[i].1)) by {
            if i < s.len() - 1 {
                assert(s.drop_last()[i] == s[i]);
            }
        }
    }
}

pub broadcast group group_yaml_views {
    lemma_yv_seq,
    lemma_yv_pairs,
}

impl YamlHash {
    /// The entries of the mapping.
    pub open spec fn view_pairs(&self) -> Seq<(YamlV, YamlV)> {
        yv_pairs(self.entries@)
    }

    /// An empty mapping.
    pub fn new() -> (r: YamlHash)
        ensures
            r.view_pairs() == Seq::<(YamlV, YamlV)>::empty(),
    {
        YamlHash { entries: Vec::new() }
    }

    /// The number of entries.
    pub fn len(&self) -> (r: usize)
        ensures
            r == self.view_pairs().len(),
    {
        broadcast use group_yaml_views;
        self.entries.len()
    }

    /// The position of the first entry whose key is `k`.
    pub fn find(&self, k: &Yaml) -> (r: Option<usize>)
        ensures
            r == first_key(self.view_pairs(), yv(*k)),
            r matches Some(i) ==> i < self.entries@.len(),
    {
        broadcast use group_yaml_views;
        let mut i: usize = 0;
        while i < self.entries.len()
            invariant
                i <= self.entries@.len(),
                first_key(self.view_pairs().take(i as int), yv(*k)) is None,
            decreases self.entries.len() - i,
        {
            let ghost pv = self.view_pairs();
            proof {
                lemma_yv_pairs(self.entries@);
            }
            assert(pv.take(i + 1).drop_last() =~= pv.take(i as int));
            if yaml_eq(&self.entries[i].0, k) {
                proof {
                    lemma_first_key_prefix(pv, yv(*k), i as int);
                }
                return Some(i);
            }
            i = i + 1;
        }
        assert(self.view_pairs().take(i as int) =~= self.view_pairs());
        None
    }

    /// The value of the first entry whose key is `k`.
    pub fn get(&self, k: &Yaml) -> (r: Option<&Yaml>)
        ensures
            match (r, lookup(self.view_pairs(), yv(*k))) {
                (Some(v), Some(w)) => yv(*v) == w,
                (None, None) => true,
                _ => false,
            },
    {
        broadcast use group_yaml_views;
        match self.find(k) {
            Some(i) => Some(&self.entries[i].1),
            None => None,
        }
    }

    /// Whether some entry has the key `k`.
    pub fn contains_key(&self, k: &Yaml) -> (r: bool)
        ensures
            r == (first_key(self.view_pairs(), yv(*k)) is Some),
    {
        self.find(k).is_some()
    }

    /// Sets the value of `k` to `v`; the entry goes to the end of the mapping
    /// (`LinkedHashMap::insert`).
    pub fn insert(&mut self, k: Yaml, v: Yaml)
        ensures
            final(self).view_pairs() == match first_key(old(self).view_pairs(), yv(k)) {
                Some(i) => old(self).view_pairs().remove(i as int).push((yv(k), yv(v))),
                None => old(self).view_pairs().push((yv(k), yv(v))),
            },
    {
        broadcast use group_yaml_views;
        let ghost kv = yv(k);
        let ghost vv = yv(v);
        match self.find(&k) {
            Some(i) => {
                let ghost before = self.entries@;
                self.entries.remove(i);
                assert(yv_pairs(self.entries@) =~= yv_pairs(before).remove(i as int));
            },
            None => {},
        }
        let ghost mid = self.entries@;
        self.entries.push((k, v));
        assert(yv_pairs(self.entries@) =~= yv_pairs(mid).push((kv, vv)));
    }

    /// Removes the entry whose key is `k`, if any.
    pub fn remove(&mut self, k: &Yaml)
        ensures
            final(self).view_pairs() == match first_key(old(self).view_pairs(), yv(*k)) {
                Some(i) => old(self).view_pairs().remove(i as int),
                None => old(self).view_pairs(),
            },
    {
        broadcast use group_yaml_views;
        match self.find(k) {
            Some(i) => {
                let ghost before = self.entries@;
                self.entries.remove(i);
                assert(yv_pairs(self.entries@) =~= yv_pairs(before).remove(i as int));
            },
            None => {},
        }
    }
}

/// The position of the first entry of `ps` whose key is `k`.
pub open spec fn first_key(ps: Seq<(YamlV, YamlV)>, k: YamlV) -> Option<usize>
    decreases ps.len(),
{
    if ps.len() == 0 {
        None
    } else {
        match first_key(ps.drop_last(), k) {
            Some(i) => Some(i),
            None => if ps.last().0 == k {
                Some((ps.len() - 1) as usize)
            } else {
                None
            },
        }
    }
}

/// The value of the first entry of `ps` whose key is `k`.
pub open spec fn lookup(ps: Seq<(YamlV, YamlV)>, k: YamlV) -> Option<YamlV> {
    match first_key(ps, k) {
        Some(i) => Some(ps[i as int].1),
        None => None,
    }
}

proof fn lemma_first_key_prefix(ps: Seq<(YamlV, YamlV)>, k: YamlV, i: int)
    requires
        0 <= i < ps.len(),
        ps.len() <= usize::MAX,
        first_key(ps.take(i), k) is None,
        ps[i].0 == k,
    ensures
        first_key(ps, k) == Some(i as usize),
    decreases ps.len(),
{
    if i == ps.len() - 1 {
        assert(ps.drop_last() =~= ps.take(i));
    } else {
        assert(ps.drop_last().take(i) =~= ps.take(i));
        lemma_first_key_prefix(ps.drop_last(), k, i);
    }
}

/// Structural equality of two nodes.
#[verifier::loop_isolation(false)]
pub fn yaml_eq(a: &Yaml, b: &Yaml) -> (r: bool)
    ensures
        r == (yv(*a) == yv(*b)),
    decreases a,
{
    broadcast use group_yaml_views;
    match (a, b) {
        (Yaml::Real(x), Yaml::Real(y)) => str_eq(x.as_str(), y.as_str()),
        (Yaml::Integer(x), Yaml::Integer(y)) => *x == *y,
        (Yaml::String(x), Yaml::String(y)) => str_eq(x.as_str(), y.as_str()),
        (Yaml::Boolean(x), Yaml::Boolean(y)) => *x == *y,
        (Yaml::Array(x), Yaml::Array(y)) => {
            proof {
                lemma_yv_seq(x@);
                lemma_yv_seq(y@);
            }
            assert(yv(*a) == YamlV::Array(yv_seq(x@)));
            assert(yv(*b) == YamlV::Array(yv_seq(y@)));
            if x.len() != y.len() {
                assert(yv_seq(x@).len() != yv_seq(y@).len());
                return false;
            }
            let mut i: usize = 0;
            while i < x.len()
                invariant
                    x.len() == y.len(),
                    i <= x.len(),
                    forall|j: int| 0 <= j < i ==> yv(x@[j]) == yv(y@[j]),
                decreases x.len() - i,
            {
                assert(decreases_to!(x => x@));
                assert(decreases_to!(*a => x@[i as int]));
                if !yaml_eq(&x[i], &y[i]) {
                    assert(yv_seq(x@)[i as int] != yv_seq(y@)[i as int]);
                    return false;
                }
                i = i + 1;
            }
            assert(yv_seq(x@) =~= yv_seq(y@));
            true
        },
        (Yaml::Hash(x), Yaml::Hash(y)) => {
            proof {
                lemma_yv_pairs(x.entries@);
                lemma_yv_pairs(y.entries@);
            }
            assert(yv(*a) == YamlV::Hash(yv_pairs(x.entries@)));
            assert(yv(*b) == YamlV::Hash(yv_pairs(y.entries@)));
            if x.entries.len() != y.entries.len() {
                assert(yv_pairs(x.entries@).len() != yv_pairs(y.entries@).len());
                return false;
            }
            let mut i: usize = 0;
            while i < x.entries.len()
                invariant
                    x.entries.len() == y.entries.len(),
                    i <= x.entries.len(),
                    forall|j: int| 0 <= j < i ==> yv(x.entries@[j].0) == yv(y.entries@[j].0) && yv(x.entries@[j].1) == yv(y.entries@[j].1),
                decreases x.entries.len() - i,
            {
                assert(decreases_to!(x.entries => x.entries@));
                assert(decreases_to!(*a => x.entries@[i as int].0));
                assert(decreases_to!(*a => x.entries@[i as int].1));
                if !yaml_eq(&x.entries[i].0, &y.entries[i].0) || !yaml_eq(&x.entries[i].1, &y.entries[i].1) {
                    assert(yv_pairs(x.entries@)[i as int] != yv_pairs(y.entries@)[i as int]);
                    return false;
                }
                i = i + 1;
            }
            assert(yv_pairs(x.entries@) =~= yv_pairs(y.entries@));
            true
        },
        (Yaml::Alias(x), Yaml::Alias(y)) => *x == *y,
        (Yaml::Null, Yaml::Null) => true,
        (Yaml::BadValue, Yaml::BadValue) => true,
        _ => false,
    }
}

} // verus!
