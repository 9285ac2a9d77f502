//! A map from names to values that keeps its entries in name order.
//!
//! Names are ordered as `String` orders them, by the bytes of their UTF-8 encoding. The model
//! of a map is the sequence of its entries; [`sorted`] says that no name occurs twice and that
//! smaller names come first, so equal contents mean equal sequences.

use vstd::prelude::*;
use vstd::utf8::*;

verus! {

/// Lexicographic order on byte strings.
pub open spec fn bytes_lt(a: Seq<u8>, b: Seq<u8>) -> bool
    decreases a.len(),
{
    if b.len() == 0 {
        false
    } else if a.len() == 0 {
        true
    } else {
        a[0] < b[0] || (a[0] == b[0] && bytes_lt(a.drop_first(), b.drop_first()))
    }
}

/// The order of names.
pub open spec fn name_lt(a: Seq<char>, b: Seq<char>) -> bool {
    bytes_lt(encode_utf8(a), encode_utf8(b))
}

proof fn bytes_lt_irreflexive(a: Seq<u8>)
    ensures
        !bytes_lt(a, a),
    decreases a.len(),
{
    if a.len() > 0 {
        bytes_lt_irreflexive(a.drop_first());
    }
}

proof fn bytes_lt_transitive(a: Seq<u8>, b: Seq<u8>, c: Seq<u8>)
    requires
        bytes_lt(a, b),
        bytes_lt(b, c),
    ensures
        bytes_lt(a, c),
    decreases a.len(),
{
    if a.len() > 0 && b.len() > 0 && c.len() > 0 && a[0] == b[0] && b[0] == c[0] {
        bytes_lt_transitive(a.drop_first(), b.drop_first(), c.drop_first());
    }
}

proof fn bytes_lt_total(a: Seq<u8>, b: Seq<u8>)
    ensures
        bytes_lt(a, b) || bytes_lt(b, a) || a == b,
    decreases a.len(),
{
    if a.len() > 0 && b.len() > 0 {
        if a[0] == b[0] {
            bytes_lt_total(a.drop_first(), b.drop_first());
            if a.drop_first() == b.drop_first() {
                assert(a =~= seq![a[0]] + a.drop_first());
                assert(b =~= seq![b[0]] + b.drop_first());
            }
        }
    } else if a.len() == 0 && b.len() == 0 {
        assert(a =~= b);
    }
}

/// The order of names is a strict total order.
pub proof fn name_lt_strict_total(a: Seq<char>, b: Seq<char>, c: Seq<char>)
    ensures
        !name_lt(a, a),
        name_lt(a, b) && name_lt(b, c) ==> name_lt(a, c),
        name_lt(a, b) || name_lt(b, a) || a == b,
{
    bytes_lt_irreflexive(encode_utf8(a));
    if name_lt(a, b) && name_lt(b, c) {
        bytes_lt_transitive(encode_utf8(a), encode_utf8(b), encode_utf8(c));
    }
    bytes_lt_total(encode_utf8(a), encode_utf8(b));
    encode_utf8_decode_utf8(a);
    encode_utf8_decode_utf8(b);
}

/// Entries in name order, each name once.
pub open spec fn sorted<V>(s: Seq<(Seq<char>, V)>) -> bool {
    forall|i: int, j: int| 0 <= i < j < s.len() ==> name_lt(#[trigger] s[i].0, #[trigger] s[j].0)
}

/// How many leading entries have a smaller name than `k`.
pub open spec fn rank<V>(s: Seq<(Seq<char>, V)>, k: Seq<char>) -> nat
    decreases s.len(),
{
    if s.len() > 0 && name_lt(s[0].0, k) {
        1 + rank(s.drop_first(), k)
    } else {
        0
    }
}

/// The value under `k`.
pub open spec fn found<V>(s: Seq<(Seq<char>, V)>, k: Seq<char>) -> Option<V> {
    let p = rank(s, k) as int;
    if p < s.len() && s[p].0 == k {
        Some(s[p].1)
    } else {
        None
    }
}

/// The entries after `v` is put under `k`, in place of an earlier value.
pub open spec fn inserted<V>(s: Seq<(Seq<char>, V)>, k: Seq<char>, v: V) -> Seq<(Seq<char>, V)> {
    let p = rank(s, k) as int;
    if p < s.len() && s[p].0 == k {
        s.update(p, (k, v))
    } else {
        s.insert(p, (k, v))
    }
}

/// The entries without the one under `k`.
pub open spec fn removed<V>(s: Seq<(Seq<char>, V)>, k: Seq<char>) -> Seq<(Seq<char>, V)> {
    let p = rank(s, k) as int;
    if p < s.len() && s[p].0 == k {
        s.remove(p)
    } else {
        s
    }
}

/// In sorted entries the rank of a name parts the smaller names from the rest.
pub proof fn rank_parts<V>(s: Seq<(Seq<char>, V)>, k: Seq<char>)
    requires
        sorted(s),
    ensures
        rank(s, k) <= s.len(),
        forall|i: int| 0 <= i < rank(s, k) ==> name_lt(#[trigger] s[i].0, k),
        forall|i: int| rank(s, k) <= i < s.len() ==> !name_lt(#[trigger] s[i].0, k),
    decreases s.len(),
{
    if s.len() > 0 {
        let rest = s.drop_first();
        assert forall|i: int, j: int| 0 <= i < j < rest.len() implies name_lt(
            #[trigger] rest[i].0,
            #[trigger] rest[j].0,
        ) by {
            assert(rest[i] == s[i + 1] && rest[j] == s[j + 1]);
        }
        rank_parts(rest, k);
        if name_lt(s[0].0, k) {
            assert forall|i: int| 0 <= i < rank(s, k) implies name_lt(#[trigger] s[i].0, k) by {
                if i > 0 {
                    assert(s[i] == rest[i - 1]);
                }
            }
            assert forall|i: int| rank(s, k) <= i < s.len() implies !name_lt(
                #[trigger] s[i].0,
                k,
            ) by {
                assert(s[i] == rest[i - 1]);
            }
        } else {
            assert forall|i: int| 0 <= i < s.len() implies !name_lt(#[trigger] s[i].0, k) by {
                if i > 0 && name_lt(s[i].0, k) {
                    assert(name_lt(s[0].0, s[i].0));
                    name_lt_strict_total(s[0].0, s[i].0, k);
                }
            }
        }
    }
}

/// A name that parts sorted entries at `p` has rank `p`.
pub proof fn rank_at<V>(s: Seq<(Seq<char>, V)>, k: Seq<char>, p: int)
    requires
        sorted(s),
        0 <= p <= s.len(),
        forall|i: int| 0 <= i < p ==> name_lt(#[trigger] s[i].0, k),
        p < s.len() ==> !name_lt(s[p].0, k),
    ensures
        rank(s, k) == p,
{
    rank_parts(s, k);
    if rank(s, k) < p {
        assert(name_lt(s[rank(s, k) as int].0, k));
    } else if rank(s, k) > p {
        assert(name_lt(s[p].0, k));
    }
}

/// In sorted entries a name is found exactly where it stands.
pub proof fn found_at<V>(s: Seq<(Seq<char>, V)>, k: Seq<char>)
    requires
        sorted(s),
    ensures
        forall|i: int| 0 <= i < s.len() && (#[trigger] s[i]).0 == k ==> found(s, k) == Some(s[i].1),
        (forall|i: int| 0 <= i < s.len() ==> (#[trigger] s[i]).0 != k) ==> found(s, k) is None,
{
    assert forall|i: int| 0 <= i < s.len() && (#[trigger] s[i]).0 == k implies found(s, k) == Some(
        s[i].1,
    ) by {
        assert forall|j: int| 0 <= j < i implies name_lt(#[trigger] s[j].0, k) by {
            assert(name_lt(s[j].0, s[i].0));
        }
        name_lt_strict_total(k, k, k);
        rank_at(s, k, i);
    }
}

/// Putting a value under a name keeps the order; afterwards that name gives the value, and
/// every other name what it gave before.
pub proof fn insert_then_find<V>(
    s: Seq<(Seq<char>, V)>,
    k: Seq<char>,
    v: V,
    other: Seq<char>,
)
    requires
        sorted(s),
    ensures
        sorted(inserted(s, k, v)),
        found(inserted(s, k, v), k) == Some(v),
        other != k ==> found(inserted(s, k, v), other) == found(s, other),
{
    let p = rank(s, k) as int;
    let t = inserted(s, k, v);
    rank_parts(s, k);
    if p < s.len() && s[p].0 == k {
        assert forall|i: int, j: int| 0 <= i < j < t.len() implies name_lt(
            #[trigger] t[i].0,
            #[trigger] t[j].0,
        ) by {
            assert(t[i].0 == s[i].0 && t[j].0 == s[j].0);
        }
    } else {
        assert forall|i: int, j: int| 0 <= i < j < t.len() implies name_lt(
            #[trigger] t[i].0,
            #[trigger] t[j].0,
        ) by {
            if j < p {
                assert(t[i] == s[i] && t[j] == s[j]);
            } else if j == p {
                assert(t[i] == s[i]);
            } else {
                assert(t[j] == s[j - 1]);
                assert(!name_lt(s[j - 1].0, k));
                if j - 1 > p {
                    assert(name_lt(s[p].0, s[j - 1].0));
                    assert(!name_lt(s[p].0, k));
                    name_lt_strict_total(s[j - 1].0, k, k);
                    name_lt_strict_total(k, s[j - 1].0, k);
                    if s[j - 1].0 == k {
                        assert(name_lt(s[p].0, k));
                    }
                } else {
                    name_lt_strict_total(k, s[j - 1].0, k);
                }
                if i < p {
                    assert(t[i] == s[i]);
                } else if i > p {
                    assert(t[i] == s[i - 1]);
                }
            }
        }
    }
    assert(t[p] == (k, v));
    found_at(t, k);
    if other != k {
        found_at(t, other);
        found_at(s, other);
        if exists|i: int| 0 <= i < s.len() && (#[trigger] s[i]).0 == other {
            let i = choose|i: int| 0 <= i < s.len() && (#[trigger] s[i]).0 == other;
            let at = if p < s.len() && s[p].0 == k || i < p {
                i
            } else {
                i + 1
            };
            assert(t[at] == s[i]);
        } else {
            assert forall|i: int| 0 <= i < t.len() implies (#[trigger] t[i]).0 != other by {
                if i != p {
                    let at = if p < s.len() && s[p].0 == k || i < p {
                        i
                    } else {
                        i - 1
                    };
                    assert(t[i] == s[at]);
                }
            }
        }
    }
}

/// Taking a name out keeps the order; afterwards that name gives nothing, and every other name
/// what it gave before.
pub proof fn remove_then_find<V>(s: Seq<(Seq<char>, V)>, k: Seq<char>, other: Seq<char>)
    requires
        sorted(s),
    ensures
        sorted(removed(s, k)),
        found(removed(s, k), k) is None,
        other != k ==> found(removed(s, k), other) == found(s, other),
{
    let p = rank(s, k) as int;
    let t = removed(s, k);
    rank_parts(s, k);
    found_at(s, k);
    if p < s.len() && s[p].0 == k {
        assert forall|i: int, j: int| 0 <= i < j < t.len() implies name_lt(
            #[trigger] t[i].0,
            #[trigger] t[j].0,
        ) by {
            let a = if i < p { i } else { i + 1 };
            let b = if j < p { j } else { j + 1 };
            assert(t[i] == s[a] && t[j] == s[b]);
        }
        found_at(t, k);
        assert forall|i: int| 0 <= i < t.len() implies (#[trigger] t[i]).0 != k by {
            name_lt_strict_total(k, k, k);
            if i < p {
                assert(t[i] == s[i]);
                assert(name_lt(s[i].0, s[p].0));
            } else {
                assert(t[i] == s[i + 1]);
                assert(name_lt(s[p].0, s[i + 1].0));
            }
        }
        if other != k {
            found_at(t, other);
            found_at(s, other);
            if exists|i: int| 0 <= i < s.len() && (#[trigger] s[i]).0 == other {
                let i = choose|i: int| 0 <= i < s.len() && (#[trigger] s[i]).0 == other;
                let at = if i < p { i } else { i - 1 };
                assert(t[at] == s[i]);
            } else {
                assert forall|i: int| 0 <= i < t.len() implies (#[trigger] t[i]).0 != other by {
                    let at = if i < p { i } else { i + 1 };
                    assert(t[i] == s[at]);
                }
            }
        }
    }
}

/// Two sorted maps that give the same value under every name have the same entries.
pub proof fn same_lookups_same_entries<V>(a: Seq<(Seq<char>, V)>, b: Seq<(Seq<char>, V)>)
    requires
        sorted(a),
        sorted(b),
        forall|k: Seq<char>| found(a, k) == #[trigger] found(b, k),
    ensures
        a == b,
    decreases a.len(),
{
    if a.len() == 0 {
        if b.len() > 0 {
            found_at(b, b[0].0);
            assert(found(a, b[0].0) is None);
        }
        assert(a =~= b);
    } else {
        let k = a.last().0;
        found_at(a, k);
        assert(found(b, k) == Some(a.last().1));
        let i = rank(b, k) as int;
        assert(b[i].0 == k);
        if i != b.len() - 1 {
            let m = b.last().0;
            assert(name_lt(k, m));
            found_at(b, m);
            assert(found(a, m) is Some);
            let j = rank(a, m) as int;
            assert(a[j].0 == m);
            name_lt_strict_total(k, k, k);
            if j < a.len() - 1 {
                assert(name_lt(m, k));
                name_lt_strict_total(k, m, k);
            }
        }
        assert(b.last() == a.last());
        let a1 = a.drop_last();
        let b1 = b.drop_last();
        assert(sorted(a1)) by {
            assert forall|x: int, y: int| 0 <= x < y < a1.len() implies name_lt(
                #[trigger] a1[x].0,
                #[trigger] a1[y].0,
            ) by {
                assert(a1[x] == a[x] && a1[y] == a[y]);
            }
        }
        assert(sorted(b1)) by {
            assert forall|x: int, y: int| 0 <= x < y < b1.len() implies name_lt(
                #[trigger] b1[x].0,
                #[trigger] b1[y].0,
            ) by {
                assert(b1[x] == b[x] && b1[y] == b[y]);
            }
        }
        assert forall|q: Seq<char>| found(a1, q) == #[trigger] found(b1, q) by {
            rank_parts(a, k);
            rank_parts(b, k);
            assert(a1 =~= removed(a, k)) by {
                found_at(a, k);
                name_lt_strict_total(k, k, k);
                assert(rank(a, k) == a.len() - 1) by {
                    assert forall|x: int| 0 <= x < a.len() - 1 implies name_lt(
                        #[trigger] a[x].0,
                        k,
                    ) by {
                        assert(name_lt(a[x].0, a[a.len() - 1].0));
                    }
                    rank_at(a, k, a.len() - 1);
                }
            }
            assert(b1 =~= removed(b, k));
            remove_then_find(a, k, q);
            remove_then_find(b, k, q);
            assert(found(a, q) == found(b, q));
        }
        same_lookups_same_entries(a1, b1);
        assert(a =~= a1.push(a.last()));
        assert(b =~= b1.push(b.last()));
    }
}

/// The entries with every value taken by its view.
pub open spec fn modelled<V: View>(s: Seq<(Seq<char>, V)>) -> Seq<(Seq<char>, V::V)> {
    Seq::new(s.len(), |i: int| (s[i].0, s[i].1@))
}

/// Names rank alike in the entries and in their views.
pub proof fn modelled_rank<V: View>(s: Seq<(Seq<char>, V)>, k: Seq<char>)
    ensures
        rank(modelled(s), k) == rank(s, k),
    decreases s.len(),
{
    if s.len() > 0 {
        modelled_rank(s.drop_first(), k);
        assert(modelled(s).drop_first() =~= modelled(s.drop_first()));
    }
}

/// Putting a value in and taking views may be done in either order.
pub proof fn modelled_inserted<V: View>(s: Seq<(Seq<char>, V)>, k: Seq<char>, v: V)
    requires
        sorted(s),
    ensures
        modelled(inserted(s, k, v)) == inserted(modelled(s), k, v@),
{
    modelled_rank(s, k);
    rank_parts(s, k);
    assert(modelled(inserted(s, k, v)) =~= inserted(modelled(s), k, v@));
}

/// Looking a name up and taking views may be done in either order.
pub proof fn modelled_found<V: View>(s: Seq<(Seq<char>, V)>, k: Seq<char>)
    ensures
        found(modelled(s), k) == (match found(s, k) {
            Some(v) => Some(v@),
            None => None,
        }),
{
    modelled_rank(s, k);
}

/// Sorted entries are what putting them in one by one builds.
pub proof fn append_is_insert<V>(s: Seq<(Seq<char>, V)>, i: int)
    requires
        sorted(s),
        0 <= i < s.len(),
    ensures
        sorted(s.take(i)),
        inserted(s.take(i), s[i].0, s[i].1) == s.take(i + 1),
{
    let t = s.take(i);
    assert forall|x: int, y: int| 0 <= x < y < t.len() implies name_lt(
        #[trigger] t[x].0,
        #[trigger] t[y].0,
    ) by {
        assert(t[x] == s[x] && t[y] == s[y]);
    }
    assert forall|x: int| 0 <= x < t.len() implies name_lt(#[trigger] t[x].0, s[i].0) by {
        assert(t[x] == s[x]);
    }
    rank_at(t, s[i].0, i);
    assert(t.insert(i, s[i]) =~= s.take(i + 1));
}

/// Whether `a` comes before `b`.
pub fn bytes_less(a: &[u8], b: &[u8]) -> (r: bool)
    ensures
        r == bytes_lt(a@, b@),
{
    let mut i: usize = 0;
    assert(a@.skip(0) =~= a@ && b@.skip(0) =~= b@);
    while i < a.len() && i < b.len()
        invariant
            i <= a@.len(),
            i <= b@.len(),
            bytes_lt(a@, b@) == bytes_lt(a@.skip(i as int), b@.skip(i as int)),
        decreases a@.len() - i,
    {
        assert(a@.skip(i as int).drop_first() =~= a@.skip(i + 1));
        assert(b@.skip(i as int).drop_first() =~= b@.skip(i + 1));
        if a[i] != b[i] {
            return a[i] < b[i];
        }
        i = i + 1;
    }
    i < b.len()
}

/// Whether the name `a` comes before the name `b`.
pub fn name_less(a: &str, b: &str) -> (r: bool)
    ensures
        r == name_lt(a@, b@),
{
    bytes_less(a.as_bytes(), b.as_bytes())
}

/// A map from names to values, in name order.
#[derive(Debug, Clone)]
pub struct NameMap<V> {
    entries: Vec<(String, V)>,
}

impl<V> View for NameMap<V> {
    type V = Seq<(Seq<char>, V)>;

    closed spec fn view(&self) -> Seq<(Seq<char>, V)> {
        Seq::new(self.entries@.len(), |i: int| (self.entries@[i].0@, self.entries@[i].1))
    }
}

impl<V> NameMap<V> {
    /// Every map that the methods below build is in order.
    pub open spec fn wf(&self) -> bool {
        sorted(self@)
    }

    /// The empty map.
    pub fn new() -> (r: Self)
        ensures
            r.wf(),
            r@ == Seq::<(Seq<char>, V)>::empty(),
    {
        let r = NameMap { entries: Vec::new() };
        assert(r@ =~= Seq::<(Seq<char>, V)>::empty());
        r
    }

    /// How many names the map holds.
    pub fn len(&self) -> (r: usize)
        ensures
            r == self@.len(),
    {
        self.entries.len()
    }

    /// The name at place `i` of the order.
    pub fn name_at(&self, i: usize) -> (r: &String)
        requires
            i < self@.len(),
        ensures
            r@ == self@[i as int].0,
    {
        &self.entries[i].0
    }

    /// The value at place `i` of the order.
    pub fn value_at(&self, i: usize) -> (r: &V)
        requires
            i < self@.len(),
        ensures
            *r == self@[i as int].1,
    {
        &self.entries[i].1
    }

    /// Replaces the value at place `i` of the order.
    pub fn set_value_at(&mut self, i: usize, value: V)
        requires
            old(self).wf(),
            i < old(self)@.len(),
        ensures
            final(self).wf(),
            final(self)@ == old(self)@.update(i as int, (old(self)@[i as int].0, value)),
    {
        let name = self.entries[i].0.clone();
        self.entries.set(i, (name, value));
        assert(self@ =~= old(self)@.update(i as int, (old(self)@[i as int].0, value)));
        assert forall|x: int, y: int| 0 <= x < y < self@.len() implies name_lt(
            #[trigger] self@[x].0,
            #[trigger] self@[y].0,
        ) by {
            assert(self@[x].0 == old(self)@[x].0 && self@[y].0 == old(self)@[y].0);
            assert(name_lt(old(self)@[x].0, old(self)@[y].0));
        }
    }

    fn place(&self, name: &str) -> (r: usize)
        requires
            self.wf(),
        ensures
            r == rank(self@, name@),
            r <= self@.len(),
    {
        let mut i: usize = 0;
        while i < self.entries.len() && name_less(self.entries[i].0.as_str(), name)
            invariant
                i <= self@.len(),
                self@.len() == self.entries@.len(),
                forall|j: int| 0 <= j < i ==> name_lt(#[trigger] self@[j].0, name@),
            decreases self@.len() - i,
        {
            i = i + 1;
        }
        proof {
            rank_at(self@, name@, i as int);
        }
        i
    }

    /// The value under `name`.
    pub fn get(&self, name: &str) -> (r: Option<&V>)
        requires
            self.wf(),
        ensures
            match r {
                Some(v) => found(self@, name@) == Some(*v),
                None => found(self@, name@) is None,
            },
    {
        let p: usize = self.place(name);
        if p < self.entries.len() && str_same(self.entries[p].0.as_str(), name) {
            Some(&self.entries[p].1)
        } else {
            None
        }
    }

    /// Puts `value` under `name`, in place of an earlier one.
    pub fn insert(&mut self, name: String, value: V)
        requires
            old(self).wf(),
        ensures
            final(self).wf(),
            final(self)@ == inserted(old(self)@, name@, value),
    {
        let p: usize = self.place(name.as_str());
        proof {
            insert_then_find(self@, name@, value, name@);
        }
        if p < self.entries.len() && str_same(self.entries[p].0.as_str(), name.as_str()) {
            let ghost name_chars = name@;
            self.entries.set(p, (name, value));
            assert(self@ =~= old(self)@.update(p as int, (name_chars, value)));
        } else {
            let ghost name_chars = name@;
            self.entries.insert(p, (name, value));
            assert(self@ =~= old(self)@.insert(p as int, (name_chars, value)));
        }
    }

    /// Takes the value under `name` out.
    pub fn remove(&mut self, name: &str) -> (r: Option<V>)
        requires
            old(self).wf(),
        ensures
            final(self).wf(),
            final(self)@ == removed(old(self)@, name@),
            r == found(old(self)@, name@),
    {
        let p: usize = self.place(name);
        proof {
            remove_then_find(self@, name@, name@);
        }
        if p < self.entries.len() && str_same(self.entries[p].0.as_str(), name) {
            let (_, value) = self.entries.remove(p);
            assert(self@ =~= old(self)@.remove(p as int));
            Some(value)
        } else {
            None
        }
    }

    /// Takes every entry out.
    pub fn clear(&mut self)
        ensures
            final(self).wf(),
            final(self)@ == Seq::<(Seq<char>, V)>::empty(),
    {
        self.entries.clear();
        assert(self@ =~= Seq::<(Seq<char>, V)>::empty());
    }
}

/// Whether two texts are the same.
pub fn str_same(a: &str, b: &str) -> (r: bool)
    ensures
        r == (a@ == b@),
{
    let x = a.as_bytes();
    let y = b.as_bytes();
    proof {
        encode_utf8_decode_utf8(a@);
        encode_utf8_decode_utf8(b@);
    }
    if x.len() != y.len() {
        return false;
    }
    let mut i: usize = 0;
    while i < x.len()
        invariant
            i <= x@.len(),
            x@.len() == y@.len(),
            x@ == encode_utf8(a@),
            y@ == encode_utf8(b@),
            forall|j: int| 0 <= j < i ==> x@[j] == y@[j],
        decreases x@.len() - i,
    {
        if x[i] != y[i] {
            return false;
        }
        i = i + 1;
    }
    assert(x@ =~= y@);
    true
}

} // verus!
