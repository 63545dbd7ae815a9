use vstd::prelude::*;
use crate::text::dec_digits;

verus! {

/// The mathematical shape of a decoded value: a tree of mappings over
/// normalized keys, texts, and unsigned 32-bit integers.
pub enum VdfModel {
    Object(Map<Seq<char>, VdfModel>),
    Text(Seq<char>),
    Integer(u32),
}

/// A decoded value: a nested object, an owned string, or an unsigned
/// 32-bit number.
#[derive(Debug)]
pub enum VdfValue {
    Object(VdfMap),
    Text(String),
    Integer(u32),
}

/// A mapping from normalized keys to decoded values. Entries are kept in a
/// vector; a well-formed map holds each key at most once, and its view is
/// the mapping in which the latest entry for a key wins.
#[derive(Debug)]
pub struct VdfMap {
    pub entries: Vec<(String, VdfValue)>,
}

/// The mapping described by a sequence of entries, later entries
/// overwriting earlier ones with the same key.
pub open spec fn map_model(s: Seq<(String, VdfValue)>) -> Map<Seq<char>, VdfModel>
    decreases s,
{
    if s.len() == 0 {
        Map::empty()
    } else {
        map_model(s.drop_last()).insert(s.last().0@, s.last().1@)
    }
}

impl View for VdfValue {
    type V = VdfModel;

    open spec fn view(&self) -> VdfModel
        decreases self,
    {
        match self {
            VdfValue::Object(m) => VdfModel::Object(map_model(m.entries@)),
            VdfValue::Text(s) => VdfModel::Text(s@),
            VdfValue::Integer(n) => VdfModel::Integer(*n),
        }
    }
}

impl View for VdfMap {
    type V = Map<Seq<char>, VdfModel>;

    open spec fn view(&self) -> Map<Seq<char>, VdfModel> {
        map_model(self.entries@)
    }
}

/// Keys of the entry sequence are pairwise distinct and every nested object
/// is itself well-formed.
pub open spec fn wf_entries(s: Seq<(String, VdfValue)>) -> bool
    decreases s,
{
    if s.len() == 0 {
        true
    } else {
        wf_entries(s.drop_last()) && s.last().1.wf() && (forall|i: int|
            0 <= i < s.len() - 1 ==> s[i].0@ != s.last().0@)
    }
}

/// Well-formedness of an entry sequence spelled out pointwise: keys are
/// pairwise distinct, and every held value is well-formed.
pub proof fn lemma_wf_entries_char(s: Seq<(String, VdfValue)>)
    ensures
        wf_entries(s) == ((forall|a: int, b: int| 0 <= a < b < s.len() ==> s[a].0@ != s[b].0@)
            && (forall|x: int| 0 <= x < s.len() ==> #[trigger] s[x].1.wf())),
    decreases s.len(),
{
    if s.len() > 0 {
        lemma_wf_entries_char(s.drop_last());
        assert(forall|x: int| 0 <= x < s.len() - 1 ==> s.drop_last()[x] == s[x]);
        if wf_entries(s) {
            assert forall|a: int, b: int| 0 <= a < b < s.len() implies s[a].0@ != s[b].0@ by {
                if b < s.len() - 1 {
                    assert(s.drop_last()[a].0@ != s.drop_last()[b].0@);
                }
            }
            assert forall|x: int| 0 <= x < s.len() implies #[trigger] s[x].1.wf() by {
                if x < s.len() - 1 {
                    assert(s.drop_last()[x].1.wf());
                }
            }
        }
        if (forall|a: int, b: int| 0 <= a < b < s.len() ==> s[a].0@ != s[b].0@) && (forall|x: int|
            0 <= x < s.len() ==> #[trigger] s[x].1.wf()) {
            assert forall|a: int, b: int|
                0 <= a < b < s.drop_last().len() implies s.drop_last()[a].0@
                != s.drop_last()[b].0@ by {
                assert(s[a].0@ != s[b].0@);
            }
            assert forall|x: int| 0 <= x < s.drop_last().len() implies #[trigger] s.drop_last()[x].1.wf()
            by {
                assert(s[x].1.wf());
            }
            assert(s.last().1.wf());
            assert(wf_entries(s));
        }
    }
}

impl VdfValue {
    /// Every object reachable from this value is well-formed.
    pub open spec fn wf(&self) -> bool
        decreases self,
    {
        match self {
            VdfValue::Object(m) => wf_entries(m.entries@),
            _ => true,
        }
    }

    /// Borrows the object this value holds, if it is an object.
    pub fn as_map(&self) -> (r: Option<&VdfMap>)
        ensures
            (r is Some) == (self is Object),
            r matches Some(m) ==> *self == VdfValue::Object(*m) && self@ == VdfModel::Object(m@)
                && self.wf() == wf_entries(m.entries@),
    {
        match self {
            VdfValue::Object(m) => Some(m),
            _ => None,
        }
    }

    /// Takes the object this value holds, if it is an object.
    pub fn into_map(self) -> (r: Option<VdfMap>)
        ensures
            (r is Some) == (self is Object),
            r matches Some(m) ==> self == VdfValue::Object(m) && self@ == VdfModel::Object(m@)
                && self.wf() == wf_entries(m.entries@),
    {
        match self {
            VdfValue::Object(m) => Some(m),
            _ => None,
        }
    }

    /// Borrows the object this value holds mutably, if it is an object.
    /// The borrow starts out holding that very object: the call itself
    /// changes nothing.
    pub fn as_map_mut(&mut self) -> (r: Option<&mut VdfMap>)
        ensures
            (r is Some) == (*old(self) is Object),
            r is None ==> *final(self) == *old(self),
            r matches Some(m) ==> *old(self) == VdfValue::Object(*m) && *final(self)
                == VdfValue::Object(*final(m)),
    {
        match self {
            VdfValue::Object(m) => Some(m),
            _ => None,
        }
    }

    /// Borrows the string this value holds, if it is a string.
    pub fn as_str(&self) -> (r: Option<&String>)
        ensures
            (r is Some) == (self is Text),
            r matches Some(s) ==> self@ == VdfModel::Text(s@),
    {
        match self {
            VdfValue::Text(s) => Some(s),
            _ => None,
        }
    }

    /// Renders the value as an owned string: a string is copied, an integer
    /// is printed in base 10, an object yields nothing.
    pub fn copy_as_str(&self) -> (r: Option<String>)
        ensures
            match self@ {
                VdfModel::Text(t) => r matches Some(s) && s@ == t,
                VdfModel::Integer(n) => r matches Some(s) && s@ == dec_digits(n as nat),
                VdfModel::Object(_) => r is None,
            },
    {
        match self {
            VdfValue::Text(s) => Some(s.clone()),
            VdfValue::Integer(n) => Some(crate::text::u32_digits(*n)),
            _ => None,
        }
    }

    /// Borrows the number this value holds, if it is an integer.
    pub fn as_number(&self) -> (r: Option<&u32>)
        ensures
            (r is Some) == (self is Integer),
            r matches Some(n) ==> self@ == VdfModel::Integer(*n),
    {
        match self {
            VdfValue::Integer(n) => Some(n),
            _ => None,
        }
    }
}

/// The keys of the modeled mapping are exactly the keys of the entries.
pub proof fn lemma_map_model_dom(s: Seq<(String, VdfValue)>, k: Seq<char>)
    ensures
        map_model(s).dom().contains(k) <==> exists|i: int| 0 <= i < s.len() && s[i].0@ == k,
    decreases s.len(),
{
    if s.len() > 0 {
        lemma_map_model_dom(s.drop_last(), k);
        assert(map_model(s) == map_model(s.drop_last()).insert(s.last().0@, s.last().1@));
        if map_model(s).dom().contains(k) {
            if s.last().0@ == k {
                assert(s[s.len() - 1].0@ == k);
            } else {
                assert(map_model(s.drop_last()).dom().contains(k));
                let i = choose|i: int| 0 <= i < s.drop_last().len() && s.drop_last()[i].0@ == k;
                assert(s.drop_last()[i] == s[i]);
                assert(s[i].0@ == k);
            }
        }
        if exists|i: int| 0 <= i < s.len() && s[i].0@ == k {
            let i = choose|i: int| 0 <= i < s.len() && s[i].0@ == k;
            if i < s.len() - 1 {
                assert(s.drop_last()[i] == s[i]);
                assert(s.drop_last()[i].0@ == k);
                assert(map_model(s.drop_last()).dom().contains(k));
            }
            assert(map_model(s).dom().contains(k));
        }
    } else {
        assert(map_model(s) == Map::<Seq<char>, VdfModel>::empty());
        assert(!map_model(s).dom().contains(k));
    }
}

/// With pairwise distinct keys, the modeled mapping holds exactly as many
/// keys as there are entries.
pub proof fn lemma_wf_entry_count(s: Seq<(String, VdfValue)>)
    requires
        forall|a: int, b: int| 0 <= a < b < s.len() ==> s[a].0@ != s[b].0@,
    ensures
        map_model(s).dom().finite(),
        map_model(s).dom().len() == s.len(),
    decreases s.len(),
{
    if s.len() > 0 {
        assert(forall|a: int, b: int|
            0 <= a < b < s.drop_last().len() ==> s.drop_last()[a].0@ != s.drop_last()[b].0@);
        lemma_wf_entry_count(s.drop_last());
        lemma_map_model_dom(s.drop_last(), s.last().0@);
        assert(!map_model(s.drop_last()).dom().contains(s.last().0@)) by {
            if map_model(s.drop_last()).dom().contains(s.last().0@) {
                let i = choose|i: int|
                    0 <= i < s.drop_last().len() && s.drop_last()[i].0@ == s.last().0@;
                assert(s[i].0@ == s[s.len() - 1].0@);
                assert(false);
            }
        }
        assert(map_model(s) == map_model(s.drop_last()).insert(s.last().0@, s.last().1@));
        assert(map_model(s).dom() =~= map_model(s.drop_last()).dom().insert(s.last().0@));
    } else {
        assert(map_model(s).dom() =~= Set::<Seq<char>>::empty());
    }
}

/// The value of the latest entry holding a key, if the key is held at all.
pub open spec fn find_value(s: Seq<(String, VdfValue)>, k: Seq<char>) -> Option<VdfValue>
    decreases s.len(),
{
    if s.len() == 0 {
        None
    } else if s.last().0@ == k {
        Some(s.last().1)
    } else {
        find_value(s.drop_last(), k)
    }
}

/// Finding a key ignores a suffix of entries whose keys all differ from it.
proof fn lemma_find_value_prefix(s: Seq<(String, VdfValue)>, i: int, k: Seq<char>)
    requires
        0 <= i <= s.len(),
        forall|j: int| i <= j < s.len() ==> s[j].0@ != k,
    ensures
        find_value(s, k) == find_value(s.take(i), k),
    decreases s.len() - i,
{
    if i < s.len() {
        lemma_find_value_prefix(s, i + 1, k);
        assert(s.take(i + 1).drop_last() =~= s.take(i));
        assert(s.take(i + 1).last() == s[i]);
    } else {
        assert(s.take(i) =~= s);
    }
}

/// Looking a key up in the modeled mapping ignores a suffix of entries
/// whose keys all differ from it.
proof fn lemma_lookup_prefix(s: Seq<(String, VdfValue)>, i: int, k: Seq<char>)
    requires
        0 <= i <= s.len(),
        forall|j: int| i <= j < s.len() ==> s[j].0@ != k,
    ensures
        map_model(s).dom().contains(k) == map_model(s.take(i)).dom().contains(k),
        map_model(s).dom().contains(k) ==> map_model(s)[k] == map_model(s.take(i))[k],
    decreases s.len() - i,
{
    if i < s.len() {
        lemma_lookup_prefix(s, i + 1, k);
        assert(s.take(i + 1).drop_last() =~= s.take(i));
        assert(s.take(i + 1).last() == s[i]);
        assert(map_model(s.take(i + 1)) == map_model(s.take(i)).insert(s[i].0@, s[i].1@));
        assert(s[i].0@ != k);
        assert(map_model(s.take(i + 1)).dom().contains(k) == map_model(s.take(i)).dom().contains(
            k,
        ));
        assert(map_model(s.take(i + 1)).dom().contains(k) ==> map_model(s.take(i + 1))[k]
            == map_model(s.take(i))[k]);
    } else {
        assert(s.take(i) =~= s);
    }
}

/// Removing the one entry that holds a key removes that key from the model.
proof fn lemma_map_model_remove(s: Seq<(String, VdfValue)>, idx: int)
    requires
        0 <= idx < s.len(),
        forall|i: int, j: int| 0 <= i < j < s.len() ==> s[i].0@ != s[j].0@,
    ensures
        map_model(s.remove(idx)) == map_model(s).remove(s[idx].0@),
    decreases s.len(),
{
    let k = s[idx].0@;
    if idx == s.len() - 1 {
        assert(s.remove(idx) =~= s.drop_last());
        lemma_map_model_dom(s.drop_last(), k);
        assert(forall|i: int| 0 <= i < s.drop_last().len() ==> s.drop_last()[i].0@ != k);
        assert(map_model(s.drop_last()) =~= map_model(s.drop_last()).insert(k, s.last().1@).remove(k));
    } else {
        assert(s.remove(idx).drop_last() =~= s.drop_last().remove(idx));
        assert(s.remove(idx).last() == s.last());
        lemma_map_model_remove(s.drop_last(), idx);
        assert(s.drop_last()[idx] == s[idx]);
        assert(s.last().0@ != k);
        assert(map_model(s.drop_last()).remove(k).insert(s.last().0@, s.last().1@) =~= map_model(
            s.drop_last(),
        ).insert(s.last().0@, s.last().1@).remove(k));
    }
}

impl VdfMap {
    /// The keys of the entries are pairwise distinct.
    pub open spec fn keys_distinct(&self) -> bool {
        forall|i: int, j: int|
            0 <= i < j < self.entries@.len() ==> self.entries@[i].0@ != self.entries@[j].0@
    }

    /// Every key appears at most once, and nested objects are well-formed
    /// in the same way.
    pub open spec fn wf(&self) -> bool {
        wf_entries(self.entries@)
    }

    /// The empty mapping.
    pub fn new() -> (r: VdfMap)
        ensures
            r@ == Map::<Seq<char>, VdfModel>::empty(),
            r.wf(),
            r.entries@.len() == 0,
    {
        VdfMap { entries: Vec::new() }
    }

    /// The number of entries held: in a well-formed map, the number of
    /// keys of the mapping.
    pub fn len(&self) -> (n: usize)
        ensures
            n == self.entries@.len(),
            self.keys_distinct() ==> n == self@.dom().len(),
    {
        proof {
            if self.keys_distinct() {
                lemma_wf_entry_count(self.entries@);
            }
        }
        self.entries.len()
    }

    /// Looks a normalized key up, returning the latest value stored for it.
    pub fn get(&self, key: &str) -> (r: Option<&VdfValue>)
        ensures
            match r {
                Some(v) => self@.dom().contains(key@) && v@ == self@[key@] && find_value(
                    self.entries@,
                    key@,
                ) == Some(*v) && (self.wf() ==> v.wf()),
                None => !self@.dom().contains(key@) && find_value(self.entries@, key@) is None,
            },
    {
        let ghost s = self.entries@;
        let mut i: usize = self.entries.len();
        while i > 0
            invariant
                i <= s.len(),
                s == self.entries@,
                forall|j: int| i <= j < s.len() ==> s[j].0@ != key@,
            decreases i,
        {
            i = i - 1;
            let hit = crate::text::str_eq(self.entries[i].0.as_str(), key);
            if hit {
                proof {
                    lemma_lookup_prefix(s, i + 1, key@);
                    lemma_find_value_prefix(s, i + 1, key@);
                    assert(s.take(i + 1).drop_last() =~= s.take(i as int));
                    assert(s.take(i + 1).last() == s[i as int]);
                    assert(find_value(s, key@) == Some(s[i as int].1));
                    assert(map_model(s.take(i + 1)) == map_model(s.take(i as int)).insert(
                        s[i as int].0@,
                        s[i as int].1@,
                    ));
                    assert(s[i as int].0@ == key@);
                    assert(map_model(s).dom().contains(key@));
                    assert(map_model(s)[key@] == s[i as int].1@);
                    if self.wf() {
                        lemma_wf_entries_char(s);
                        assert(s[i as int].1.wf());
                    }
                }
                return Some(&self.entries[i].1);
            }
        }
        proof {
            lemma_lookup_prefix(s, 0, key@);
            lemma_find_value_prefix(s, 0, key@);
            assert(s.take(0) =~= Seq::<(String, VdfValue)>::empty());
        }
        None
    }

    /// Stores a value under a key, overwriting the entry the key already
    /// holds, if any.
    pub fn insert(&mut self, key: String, value: VdfValue)
        requires
            old(self).keys_distinct(),
        ensures
            final(self).keys_distinct(),
            old(self).wf() && value.wf() ==> final(self).wf(),
            final(self)@ == old(self)@.insert(key@, value@),
            final(self).entries@.len() <= old(self).entries@.len() + 1,
    {
        let ghost s0 = self.entries@;
        let mut i: usize = 0;
        let n = self.entries.len();
        while i < n
            invariant
                i <= n,
                n == self.entries@.len(),
                s0 == self.entries@,
                old(self).entries@ == s0,
                old(self).wf() == wf_entries(s0),
                forall|a: int, b: int| 0 <= a < b < s0.len() ==> s0[a].0@ != s0[b].0@,
                forall|j: int| 0 <= j < i ==> s0[j].0@ != key@,
            decreases n - i,
        {
            let hit = crate::text::str_eq(self.entries[i].0.as_str(), key.as_str());
            if hit {
                let ghost idx = i as int;
                proof {
                    lemma_map_model_remove(s0, idx);
                    s0.remove_ensures(idx);
                }
                self.entries.remove(i);
                self.entries.push((key, value));
                proof {
                    let s1 = s0.remove(idx);
                    let s2 = self.entries@;
                    assert(s2.drop_last() =~= s1);
                    assert(s2.last() == (key, value));
                    assert(map_model(s2) == map_model(s1).insert(key@, value@));
                    assert(map_model(s2) =~= map_model(s0).insert(key@, value@));
                    // every remaining old entry keeps a key that differs from `key`
                    assert forall|j: int| 0 <= j < s1.len() implies s1[j].0@ != key@ by {
                        if j < idx {
                            assert(s1[j] == s0[j]);
                        } else {
                            assert(s1[j] == s0[j + 1]);
                        }
                    }
                    assert forall|a: int, b: int| 0 <= a < b < s2.len() implies s2[a].0@
                        != s2[b].0@ by {
                        if b < s2.len() - 1 {
                            assert(s2[a] == s1[a]);
                            assert(s2[b] == s1[b]);
                            if a < idx {
                                assert(s1[a] == s0[a]);
                            } else {
                                assert(s1[a] == s0[a + 1]);
                            }
                            if b < idx {
                                assert(s1[b] == s0[b]);
                            } else {
                                assert(s1[b] == s0[b + 1]);
                            }
                        } else {
                            assert(s2[a] == s1[a]);
                        }
                    }
                    if old(self).wf() && value.wf() {
                        lemma_wf_entries_char(s0);
                        lemma_wf_entries_char(s2);
                        assert forall|j: int| 0 <= j < s2.len() implies #[trigger] s2[j].1.wf()
                        by {
                            if j < s2.len() - 1 {
                                assert(s2[j] == s1[j]);
                                if j < idx {
                                    assert(s1[j] == s0[j]);
                                    assert(s0[j].1.wf());
                                } else {
                                    assert(s1[j] == s0[j + 1]);
                                    assert(s0[j + 1].1.wf());
                                }
                            }
                        }
                    }
                }
                return ;
            }
            i = i + 1;
        }
        self.entries.push((key, value));
        proof {
            let s2 = self.entries@;
            assert(s2 == s0.push((key, value)));
            assert(s2.len() == s0.len() + 1);
            assert(forall|x: int| 0 <= x < s0.len() ==> s2[x] == s0[x]);
            assert(s2.drop_last() =~= s0);
            assert(s2.last() == (key, value));
            assert(map_model(s2) == map_model(s0).insert(key@, value@));
            assert forall|a: int, b: int| 0 <= a < b < s2.len() implies s2[a].0@ != s2[b].0@ by {
                assert(s2[a] == s0[a]);
                if b < s2.len() - 1 {
                    assert(s2[b] == s0[b]);
                }
            }
            if old(self).wf() && value.wf() {
                lemma_wf_entries_char(s0);
                lemma_wf_entries_char(s2);
                assert forall|j: int| 0 <= j < s2.len() implies #[trigger] s2[j].1.wf() by {
                    if j < s2.len() - 1 {
                        assert(s2[j] == s0[j]);
                        assert(s0[j].1.wf());
                    }
                }
            }
        }
    }
}

} // verus!
