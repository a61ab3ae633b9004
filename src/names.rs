//! A finite map from names to values, kept as a list of entries with
//! distinct names.

use vstd::prelude::*;

verus! {

/// The map that a list of entries denotes; a later entry for a name
/// shadows an earlier one.
pub open spec fn map_of<V: View>(s: Seq<(String, V)>) -> Map<Seq<char>, V::V>
    decreases s.len(),
{
    if s.len() == 0 {
        Map::empty()
    } else {
        map_of(s.drop_last()).insert(s.last().0@, s.last().1@)
    }
}

/// No two entries carry the same name.
pub open spec fn unique_names<V>(s: Seq<(String, V)>) -> bool {
    forall|i: int, j: int| 0 <= i < j < s.len() ==> s[i].0@ != s[j].0@
}

/// A name is bound exactly when some entry carries it.
pub proof fn lemma_map_of_dom<V: View>(s: Seq<(String, V)>, k: Seq<char>)
    ensures
        map_of(s).contains_key(k) <==> exists|i: int| 0 <= i < s.len() && s[i].0@ == k,
    decreases s.len(),
{
    if s.len() > 0 {
        lemma_map_of_dom(s.drop_last(), k);
        if map_of(s).contains_key(k) && s.last().0@ != k {
            let i = choose|i: int| 0 <= i < s.len() - 1 && s.drop_last()[i].0@ == k;
            assert(s[i].0@ == k);
        }
        if exists|i: int| 0 <= i < s.len() && s[i].0@ == k {
            let i = choose|i: int| 0 <= i < s.len() && s[i].0@ == k;
            if i < s.len() - 1 {
                assert(s.drop_last()[i].0@ == k);
            }
        }
    }
}

/// With distinct names, each entry's value is the one bound to its name.
pub proof fn lemma_map_of_value<V: View>(s: Seq<(String, V)>, i: int)
    requires
        unique_names(s),
        0 <= i < s.len(),
    ensures
        map_of(s).contains_key(s[i].0@),
        map_of(s)[s[i].0@] == s[i].1@,
    decreases s.len(),
{
    if i < s.len() - 1 {
        let t = s.drop_last();
        assert(t[i] == s[i]);
        lemma_map_of_value(t, i);
    }
}

/// Replacing the value of an entry rebinds its name.
proof fn lemma_map_of_update<V: View>(s: Seq<(String, V)>, i: int, e: (String, V))
    requires
        unique_names(s),
        0 <= i < s.len(),
        e.0@ == s[i].0@,
    ensures
        unique_names(s.update(i, e)),
        map_of(s.update(i, e)) == map_of(s).insert(e.0@, e.1@),
    decreases s.len(),
{
    let u = s.update(i, e);
    if i == s.len() - 1 {
        assert(u.drop_last() =~= s.drop_last());
        assert(map_of(u) =~= map_of(s).insert(e.0@, e.1@));
    } else {
        let t = s.drop_last();
        assert(u.drop_last() =~= t.update(i, e));
        lemma_map_of_update(t, i, e);
        assert(map_of(u) =~= map_of(s).insert(e.0@, e.1@));
    }
}

/// A finite map from names to values.
#[derive(Debug)]
pub struct NameMap<V> {
    entries: Vec<(String, V)>,
}

impl<V: View> View for NameMap<V> {
    type V = Map<Seq<char>, V::V>;

    closed spec fn view(&self) -> Map<Seq<char>, V::V> {
        map_of(self.entries@)
    }
}

impl<V> NameMap<V> {
    /// Names are distinct.
    pub closed spec fn wf(&self) -> bool {
        unique_names(self.entries@)
    }
}

impl<V: View> NameMap<V> {

    /// The entries in the order in which their names were first bound.
    pub closed spec fn entries_spec(&self) -> Seq<(String, V)> {
        self.entries@
    }

    /// What a well-formed map knows of its entries.
    pub proof fn lemma_entries(&self)
        requires
            self.wf(),
        ensures
            self@.dom().finite(),
            self@.len() == self.entries_spec().len(),
            forall|i: int|
                #![trigger self.entries_spec()[i]]
                0 <= i < self.entries_spec().len() ==> self@.contains_key(self.entries_spec()[i].0@)
                    && self@[self.entries_spec()[i].0@] == self.entries_spec()[i].1@,
            forall|k: Seq<char>|
                self@.contains_key(k) ==> exists|i: int|
                    0 <= i < self.entries_spec().len() && #[trigger] self.entries_spec()[i].0@
                        == k,
            forall|i: int, j: int|
                0 <= i < j < self.entries_spec().len() ==> self.entries_spec()[i].0@
                    != self.entries_spec()[j].0@,
    {
        let s = self.entries@;
        assert(self.entries_spec() == s);
        assert(self@ == map_of(s));
        assert forall|i: int| 0 <= i < s.len() implies #[trigger] map_of(s).contains_key(s[i].0@)
            && map_of(s)[s[i].0@] == s[i].1@ by {
            lemma_map_of_value(s, i);
        }
        assert forall|k: Seq<char>| map_of(s).contains_key(k) implies exists|i: int|
            0 <= i < s.len() && #[trigger] s[i].0@ == k by {
            lemma_map_of_dom(s, k);
        }
        lemma_len(s);
    }

    pub fn new() -> (r: Self)
        ensures
            r.wf(),
            r@ == Map::<Seq<char>, V::V>::empty(),
            r.entries_spec().len() == 0,
    {
        NameMap { entries: Vec::new() }
    }

    /// The number of names bound.
    pub fn len(&self) -> (r: usize)
        ensures
            r == self.entries_spec().len(),
    {
        self.entries.len()
    }

    /// The name of the entry at position `i`.
    pub fn name_at(&self, i: usize) -> (r: &String)
        requires
            i < self.entries_spec().len(),
        ensures
            *r == self.entries_spec()[i as int].0,
    {
        &self.entries[i].0
    }

    /// The value of the entry at position `i`.
    pub fn value_at(&self, i: usize) -> (r: &V)
        requires
            i < self.entries_spec().len(),
        ensures
            *r == self.entries_spec()[i as int].1,
    {
        &self.entries[i].1
    }

    /// The position of the entry for `k`, if `k` is bound.
    pub fn position(&self, k: &str) -> (r: Option<usize>)
        requires
            self.wf(),
        ensures
            match r {
                Some(i) => i < self.entries_spec().len() && self.entries_spec()[i as int].0@ == k@
                    && self@.contains_key(k@) && self@[k@] == self.entries_spec()[i as int].1@,
                None => !self@.contains_key(k@),
            },
    {
        let mut i: usize = 0;
        while i < self.entries.len()
            invariant
                self.wf(),
                i <= self.entries@.len(),
                forall|j: int| 0 <= j < i ==> self.entries@[j].0@ != k@,
            decreases self.entries@.len() - i,
        {
            if str_eq(self.entries[i].0.as_str(), k) {
                proof {
                    lemma_map_of_value(self.entries@, i as int);
                }
                return Some(i);
            }
            i = i + 1;
        }
        proof {
            lemma_map_of_dom(self.entries@, k@);
        }
        None
    }

    /// The value bound to `k`.
    pub fn get(&self, k: &str) -> (r: Option<&V>)
        requires
            self.wf(),
        ensures
            match r {
                Some(v) => self@.contains_key(k@) && self@[k@] == v@,
                None => !self@.contains_key(k@),
            },
    {
        match self.position(k) {
            Some(i) => Some(&self.entries[i].1),
            None => None,
        }
    }

    /// Binds `k` to `v`, replacing an earlier binding of `k` in place.
    pub fn insert(&mut self, k: String, v: V)
        requires
            old(self).wf(),
        ensures
            final(self).wf(),
            final(self)@ == old(self)@.insert(k@, v@),
            old(self)@.contains_key(k@) ==> final(self).entries_spec().len()
                == old(self).entries_spec().len(),
            !old(self)@.contains_key(k@) ==> final(self).entries_spec()
                == old(self).entries_spec().push((k, v)),
            forall|i: int|
                0 <= i < old(self).entries_spec().len()
                    ==> #[trigger] final(self).entries_spec()[i].0@ == old(self).entries_spec()[i].0@,
    {
        match self.position(k.as_str()) {
            Some(i) => {
                proof {
                    lemma_map_of_update(self.entries@, i as int, (k, v));
                }
                self.entries.set(i, (k, v));
            },
            None => {
                proof {
                    lemma_map_of_dom(self.entries@, k@);
                }
                self.entries.push((k, v));
                proof {
                    assert(self.entries@.drop_last() =~= old(self).entries@);
                }
            },
        }
    }
}

/// The number of names bound is the number of entries.
proof fn lemma_len<V: View>(s: Seq<(String, V)>)
    requires
        unique_names(s),
    ensures
        map_of(s).dom().finite(),
        map_of(s).len() == s.len(),
    decreases s.len(),
{
    if s.len() > 0 {
        let t = s.drop_last();
        lemma_len(t);
        lemma_map_of_dom(t, s.last().0@);
        if map_of(t).contains_key(s.last().0@) {
            let i = choose|i: int| 0 <= i < t.len() && t[i].0@ == s.last().0@;
            assert(s[i].0@ == s[s.len() - 1].0@);
        }
    }
}

/// Compares two strings character by character.
pub fn str_eq(a: &str, b: &str) -> (r: bool)
    ensures
        r == (a@ == b@),
{
    let n = a.unicode_len();
    if n != b.unicode_len() {
        return false;
    }
    let mut i: usize = 0;
    while i < n
        invariant
            n == a@.len(),
            n == b@.len(),
            i <= n,
            forall|j: int| 0 <= j < i ==> a@[j] == b@[j],
        decreases n - i,
    {
        if a.get_char(i) != b.get_char(i) {
            return false;
        }
        i = i + 1;
    }
    assert(a@ =~= b@);
    true
}

/// What equal sizes and inclusion of the entries give: equal maps.
proof fn lemma_equal_maps<V: View>(a: &NameMap<V>, b: &NameMap<V>)
    requires
        a.wf(),
        b.wf(),
        a.entries_spec().len() == b.entries_spec().len(),
        forall|i: int|
            0 <= i < a.entries_spec().len() ==> #[trigger] b@.contains_key(
                a.entries_spec()[i].0@,
            ) && b@[a.entries_spec()[i].0@] == a.entries_spec()[i].1@,
    ensures
        a@ == b@,
{
    a.lemma_entries();
    b.lemma_entries();
    assert(a@.dom().subset_of(b@.dom())) by {
        assert forall|k: Seq<char>| a@.contains_key(k) implies b@.contains_key(k) by {
            let i = choose|i: int| 0 <= i < a.entries_spec().len() && #[trigger] a.entries_spec()[i].0@ == k;
        }
    }
    vstd::set_lib::lemma_subset_equality(a@.dom(), b@.dom());
    assert forall|k: Seq<char>| a@.contains_key(k) implies a@[k] == b@[k] by {
        let i = choose|i: int| 0 <= i < a.entries_spec().len() && #[trigger] a.entries_spec()[i].0@ == k;
    }
    assert(a@ =~= b@);
}

impl NameMap<i64> {
    /// A copy with the same entries.
    pub fn copy(&self) -> (r: Self)
        requires
            self.wf(),
        ensures
            r.wf(),
            r@ == self@,
            r.entries_spec() == self.entries_spec(),
    {
        let mut entries: Vec<(String, i64)> = Vec::new();
        let mut i: usize = 0;
        while i < self.entries.len()
            invariant
                i <= self.entries@.len(),
                entries@ == self.entries@.subrange(0, i as int),
            decreases self.entries@.len() - i,
        {
            entries.push((self.entries[i].0.clone(), self.entries[i].1));
            i = i + 1;
            assert(entries@ =~= self.entries@.subrange(0, i as int));
        }
        assert(entries@ =~= self.entries@);
        NameMap { entries }
    }

    /// Whether both maps bind the same names to the same values.
    pub fn same_as(&self, other: &Self) -> (r: bool)
        requires
            self.wf(),
            other.wf(),
        ensures
            r == (self@ == other@),
    {
        proof {
            self.lemma_entries();
            other.lemma_entries();
        }
        if self.entries.len() != other.entries.len() {
            return false;
        }
        let mut i: usize = 0;
        while i < self.entries.len()
            invariant
                self.wf(),
                other.wf(),
                i <= self.entries@.len(),
                self.entries@.len() == other.entries@.len(),
                forall|j: int|
                    #![trigger self.entries@[j]]
                    0 <= j < i ==> other@.contains_key(self.entries@[j].0@)
                        && other@[self.entries@[j].0@] == self.entries@[j].1@,
            decreases self.entries@.len() - i,
        {
            match other.get(self.entries[i].0.as_str()) {
                Some(v) => {
                    if *v != self.entries[i].1 {
                        proof {
                            self.lemma_entries();
                        }
                        return false;
                    }
                },
                None => {
                    proof {
                        self.lemma_entries();
                    }
                    return false;
                },
            }
            assert(other@.contains_key(self.entries@[i as int].0@)
                && other@[self.entries@[i as int].0@] == self.entries@[i as int].1@);
            i = i + 1;
        }
        proof {
            lemma_equal_maps(self, other);
        }
        true
    }
}

/// Copies a sequence of integers.
pub fn copy_ints(v: &Vec<i64>) -> (r: Vec<i64>)
    ensures
        r@ == v@,
{
    let mut r: Vec<i64> = Vec::new();
    let mut i: usize = 0;
    while i < v.len()
        invariant
            i <= v@.len(),
            r@ == v@.subrange(0, i as int),
        decreases v@.len() - i,
    {
        r.push(v[i]);
        i = i + 1;
        assert(r@ =~= v@.subrange(0, i as int));
    }
    assert(r@ =~= v@);
    r
}

/// Whether two sequences of integers are equal.
pub fn ints_eq(a: &Vec<i64>, b: &Vec<i64>) -> (r: bool)
    ensures
        r == (a@ == b@),
{
    if a.len() != b.len() {
        return false;
    }
    let mut i: usize = 0;
    while i < a.len()
        invariant
            i <= a@.len(),
            a@.len() == b@.len(),
            forall|j: int| 0 <= j < i ==> a@[j] == b@[j],
        decreases a@.len() - i,
    {
        if a[i] != b[i] {
            return false;
        }
        i = i + 1;
    }
    assert(a@ =~= b@);
    true
}

impl NameMap<Vec<i64>> {
    /// A copy with the same entries.
    pub fn copy(&self) -> (r: Self)
        requires
            self.wf(),
        ensures
            r.wf(),
            r@ == self@,
            r.entries_spec().len() == self.entries_spec().len(),
            forall|i: int|
                0 <= i < self.entries_spec().len() ==> #[trigger] r.entries_spec()[i].0
                    == self.entries_spec()[i].0 && r.entries_spec()[i].1@ == self.entries_spec()[i].1@,
    {
        let mut entries: Vec<(String, Vec<i64>)> = Vec::new();
        let mut i: usize = 0;
        while i < self.entries.len()
            invariant
                i <= self.entries@.len(),
                entries@.len() == i,
                forall|j: int|
                    #![trigger entries@[j]]
                    0 <= j < i ==> entries@[j].0 == self.entries@[j].0 && entries@[j].1@
                        == self.entries@[j].1@,
            decreases self.entries@.len() - i,
        {
            let name = self.entries[i].0.clone();
            let vals = copy_ints(&self.entries[i].1);
            entries.push((name, vals));
            assert(entries@[i as int].0 == self.entries@[i as int].0);
            i = i + 1;
        }
        let r = NameMap { entries };
        proof {
            assert forall|j: int| 0 <= j < r.entries@.len() implies #[trigger] r.entries@[j].0@
                == self.entries@[j].0@ && r.entries@[j].1@ == self.entries@[j].1@ by {}
            lemma_map_of_ext(r.entries@, self.entries@);
        }
        r
    }

    /// Whether both maps bind the same names to the same sequences.
    pub fn same_as(&self, other: &Self) -> (r: bool)
        requires
            self.wf(),
            other.wf(),
        ensures
            r == (self@ == other@),
    {
        proof {
            self.lemma_entries();
            other.lemma_entries();
        }
        if self.entries.len() != other.entries.len() {
            return false;
        }
        let mut i: usize = 0;
        while i < self.entries.len()
            invariant
                self.wf(),
                other.wf(),
                i <= self.entries@.len(),
                self.entries@.len() == other.entries@.len(),
                forall|j: int|
                    #![trigger self.entries@[j]]
                    0 <= j < i ==> other@.contains_key(self.entries@[j].0@)
                        && other@[self.entries@[j].0@] == self.entries@[j].1@,
            decreases self.entries@.len() - i,
        {
            match other.get(self.entries[i].0.as_str()) {
                Some(v) => {
                    if !ints_eq(v, &self.entries[i].1) {
                        proof {
                            self.lemma_entries();
                        }
                        return false;
                    }
                },
                None => {
                    proof {
                        self.lemma_entries();
                    }
                    return false;
                },
            }
            assert(other@.contains_key(self.entries@[i as int].0@)
                && other@[self.entries@[i as int].0@] == self.entries@[i as int].1@);
            i = i + 1;
        }
        proof {
            lemma_equal_maps(self, other);
        }
        true
    }
}

/// Entries with the same names and the same views denote the same map.
proof fn lemma_map_of_ext<V: View>(s: Seq<(String, V)>, t: Seq<(String, V)>)
    requires
        s.len() == t.len(),
        forall|i: int| 0 <= i < s.len() ==> #[trigger] s[i].0@ == t[i].0@ && s[i].1@ == t[i].1@,
    ensures
        map_of(s) == map_of(t),
        unique_names(t) ==> unique_names(s),
    decreases s.len(),
{
    if s.len() > 0 {
        lemma_map_of_ext(s.drop_last(), t.drop_last());
        assert(s[s.len() - 1].0@ == t[t.len() - 1].0@);
    }
}

} // verus!
