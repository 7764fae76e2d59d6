//! A map from strings to values, kept as an association list sorted by key.
//! Its mathematical model is a sequence of (key view, value view) pairs with
//! strictly increasing keys; lookups, inserts and removals are specified by
//! recursive functions over that sequence.
use crate::strutil::{lemma_lex_transitive, lemma_lex_trichotomy, lex_lt, str_eq, str_lt};
use vstd::prelude::*;

verus! {

pub open spec fn assoc_get<T>(s: Seq<(Seq<char>, T)>, k: Seq<char>) -> Option<T>
    decreases s.len(),
{
    if s.len() == 0 {
        None
    } else if s[0].0 == k {
        Some(s[0].1)
    } else {
        assoc_get(s.drop_first(), k)
    }
}

pub open spec fn assoc_contains<T>(s: Seq<(Seq<char>, T)>, k: Seq<char>) -> bool {
    assoc_get(s, k) is Some
}

pub open spec fn assoc_insert<T>(s: Seq<(Seq<char>, T)>, k: Seq<char>, v: T) -> Seq<
    (Seq<char>, T),
>
    decreases s.len(),
{
    if s.len() == 0 {
        seq![(k, v)]
    } else if s[0].0 == k {
        seq![(k, v)] + s.drop_first()
    } else if lex_lt(k, s[0].0) {
        seq![(k, v)] + s
    } else {
        seq![s[0]] + assoc_insert(s.drop_first(), k, v)
    }
}

pub open spec fn assoc_remove<T>(s: Seq<(Seq<char>, T)>, k: Seq<char>) -> Seq<(Seq<char>, T)>
    decreases s.len(),
{
    if s.len() == 0 {
        s
    } else if s[0].0 == k {
        s.drop_first()
    } else {
        seq![s[0]] + assoc_remove(s.drop_first(), k)
    }
}

pub open spec fn assoc_sorted<T>(s: Seq<(Seq<char>, T)>) -> bool {
    forall|i: int, j: int|
        0 <= i < j < s.len() ==> lex_lt(#[trigger] s[i].0, #[trigger] s[j].0)
}

proof fn lemma_sorted_drop_first<T>(s: Seq<(Seq<char>, T)>)
    requires
        assoc_sorted(s),
        s.len() > 0,
    ensures
        assoc_sorted(s.drop_first()),
{
    let d = s.drop_first();
    assert forall|i: int, j: int| 0 <= i < j < d.len() implies lex_lt(
        #[trigger] d[i].0,
        #[trigger] d[j].0,
    ) by {
        assert(d[i] == s[i + 1]);
        assert(d[j] == s[j + 1]);
    }
}

pub proof fn lemma_assoc_insert<T>(s: Seq<(Seq<char>, T)>, k: Seq<char>, v: T)
    requires
        assoc_sorted(s),
    ensures
        assoc_sorted(assoc_insert(s, k, v)),
        assoc_get(assoc_insert(s, k, v), k) == Some(v),
        forall|k2: Seq<char>|
            k2 != k ==> #[trigger] assoc_get(assoc_insert(s, k, v), k2) == assoc_get(s, k2),
        forall|i: int|
            0 <= i < assoc_insert(s, k, v).len() ==> (#[trigger] assoc_insert(s, k, v)[i] == (k, v)
                || s.contains(assoc_insert(s, k, v)[i])),
        assoc_insert(s, k, v).len() == if assoc_contains(s, k) {
            s.len() as int
        } else {
            s.len() + 1int
        },
    decreases s.len(),
{
    let r = assoc_insert(s, k, v);
    if s.len() == 0 {
        assert(r == seq![(k, v)]);
        assert(r[0] == (k, v));
        assert(r.drop_first() =~= Seq::<(Seq<char>, T)>::empty());
        assert forall|k2: Seq<char>| k2 != k implies #[trigger] assoc_get(r, k2) == assoc_get(
            s,
            k2,
        ) by {
            assert(assoc_get(r, k2) == assoc_get(r.drop_first(), k2));
        }
    } else if s[0].0 == k {
        assert(r == seq![(k, v)] + s.drop_first());
        assert(r[0] == (k, v));
        assert(r.drop_first() =~= s.drop_first());
        lemma_sorted_drop_first(s);
        assert forall|k2: Seq<char>| k2 != k implies #[trigger] assoc_get(r, k2) == assoc_get(
            s,
            k2,
        ) by {
            assert(assoc_get(r, k2) == assoc_get(s.drop_first(), k2));
        }
        assert forall|i: int, j: int| 0 <= i < j < r.len() implies lex_lt(
            #[trigger] r[i].0,
            #[trigger] r[j].0,
        ) by {
            if i == 0 {
                assert(r[j] == s[j]);
                assert(lex_lt(s[0].0, s[j].0));
            } else {
                assert(r[i] == s[i]);
                assert(r[j] == s[j]);
            }
        }
        assert forall|i: int| 0 <= i < r.len() implies (#[trigger] r[i] == (k, v) || s.contains(
            r[i],
        )) by {
            if i > 0 {
                assert(r[i] == s[i]);
            }
        }
    } else if lex_lt(k, s[0].0) {
        assert(r == seq![(k, v)] + s);
        assert(r[0] == (k, v));
        assert(r.drop_first() =~= s);
        assert forall|k2: Seq<char>| k2 != k implies #[trigger] assoc_get(r, k2) == assoc_get(
            s,
            k2,
        ) by {
            assert(assoc_get(r, k2) == assoc_get(s, k2));
        }
        assert forall|i: int, j: int| 0 <= i < j < r.len() implies lex_lt(
            #[trigger] r[i].0,
            #[trigger] r[j].0,
        ) by {
            if i == 0 {
                assert(r[j] == s[j - 1]);
                if j > 1 {
                    lemma_lex_transitive(k, s[0].0, s[j - 1].0);
                }
            } else {
                assert(r[i] == s[i - 1]);
                assert(r[j] == s[j - 1]);
            }
        }
        assert forall|i: int| 0 <= i < r.len() implies (#[trigger] r[i] == (k, v) || s.contains(
            r[i],
        )) by {
            if i > 0 {
                assert(r[i] == s[i - 1]);
            }
        }
        lemma_lex_trichotomy(k, s[0].0);
        assert(!assoc_contains(s, k)) by {
            lemma_assoc_get_needs_entry(s, k);
        }
    } else {
        lemma_lex_trichotomy(k, s[0].0);
        lemma_sorted_drop_first(s);
        lemma_assoc_insert(s.drop_first(), k, v);
        let rd = assoc_insert(s.drop_first(), k, v);
        assert(r == seq![s[0]] + rd);
        assert(r[0] == s[0]);
        assert(r.drop_first() =~= rd);
        assert(assoc_get(r, k) == assoc_get(rd, k));
        assert forall|k2: Seq<char>| k2 != k implies #[trigger] assoc_get(r, k2) == assoc_get(
            s,
            k2,
        ) by {
            if s[0].0 == k2 {
            } else {
                assert(assoc_get(r, k2) == assoc_get(rd, k2));
                assert(assoc_get(s, k2) == assoc_get(s.drop_first(), k2));
            }
        }
        assert forall|i: int| 0 <= i < r.len() implies (#[trigger] r[i] == (k, v) || s.contains(
            r[i],
        )) by {
            if i > 0 {
                assert(r[i] == rd[i - 1]);
                if rd[i - 1] == (k, v) {
                } else {
                    assert(s.drop_first().contains(rd[i - 1]));
                    let w = choose|w: int|
                        0 <= w < s.drop_first().len() && s.drop_first()[w] == rd[i - 1];
                    assert(s[w + 1] == rd[i - 1]);
                }
            } else {
                assert(s[0] == r[0]);
            }
        }
        assert forall|i: int, j: int| 0 <= i < j < r.len() implies lex_lt(
            #[trigger] r[i].0,
            #[trigger] r[j].0,
        ) by {
            if i == 0 {
                assert(r[j] == rd[j - 1]);
                if rd[j - 1] == (k, v) {
                    assert(lex_lt(s[0].0, k));
                } else {
                    assert(s.drop_first().contains(rd[j - 1]));
                    let w = choose|w: int|
                        0 <= w < s.drop_first().len() && s.drop_first()[w] == rd[j - 1];
                    assert(s[w + 1] == rd[j - 1]);
                    assert(lex_lt(s[0].0, s[w + 1].0));
                }
            } else {
                assert(r[i] == rd[i - 1]);
                assert(r[j] == rd[j - 1]);
            }
        }
        assert(assoc_get(s, k) == assoc_get(s.drop_first(), k));
    }
}

/// A key found by lookup names an entry of the list.
pub proof fn lemma_assoc_get_needs_entry<T>(s: Seq<(Seq<char>, T)>, k: Seq<char>)
    ensures
        assoc_contains(s, k) ==> exists|i: int| 0 <= i < s.len() && (#[trigger] s[i]).0 == k,
        (exists|i: int| 0 <= i < s.len() && (#[trigger] s[i]).0 == k) ==> assoc_contains(s, k),
    decreases s.len(),
{
    if s.len() == 0 {
    } else if s[0].0 == k {
    } else {
        lemma_assoc_get_needs_entry(s.drop_first(), k);
        if assoc_contains(s, k) {
            let i = choose|i: int| 0 <= i < s.drop_first().len() && (#[trigger] s.drop_first()[i]).0 == k;
            assert(s[i + 1].0 == k);
        }
        if exists|i: int| 0 <= i < s.len() && (#[trigger] s[i]).0 == k {
            let i = choose|i: int| 0 <= i < s.len() && (#[trigger] s[i]).0 == k;
            assert(s.drop_first()[i - 1].0 == k);
        }
    }
}

pub proof fn lemma_assoc_remove<T>(s: Seq<(Seq<char>, T)>, k: Seq<char>)
    requires
        assoc_sorted(s),
    ensures
        assoc_sorted(assoc_remove(s, k)),
        assoc_get(assoc_remove(s, k), k) is None,
        forall|k2: Seq<char>|
            k2 != k ==> #[trigger] assoc_get(assoc_remove(s, k), k2) == assoc_get(s, k2),
        forall|i: int|
            0 <= i < assoc_remove(s, k).len() ==> s.contains(#[trigger] assoc_remove(s, k)[i]),
        assoc_remove(s, k).len() == if assoc_contains(s, k) {
            s.len() - 1
        } else {
            s.len() as int
        },
    decreases s.len(),
{
    let r = assoc_remove(s, k);
    if s.len() == 0 {
    } else if s[0].0 == k {
        assert(r =~= s.drop_first());
        lemma_sorted_drop_first(s);
        assert forall|i: int| 0 <= i < r.len() implies s.contains(#[trigger] r[i]) by {
            assert(r[i] == s[i + 1]);
        }
        assert(assoc_get(r, k) is None) by {
            lemma_assoc_get_needs_entry(r, k);
            if assoc_contains(r, k) {
                let i = choose|i: int| 0 <= i < r.len() && (#[trigger] r[i]).0 == k;
                assert(s[i + 1].0 == k);
                assert(lex_lt(s[0].0, s[i + 1].0));
                lemma_lex_trichotomy(s[0].0, s[i + 1].0);
            }
        }
    } else {
        lemma_sorted_drop_first(s);
        lemma_assoc_remove(s.drop_first(), k);
        let rd = assoc_remove(s.drop_first(), k);
        assert(r == seq![s[0]] + rd);
        assert(r[0] == s[0]);
        assert(r.drop_first() =~= rd);
        assert(assoc_get(r, k) == assoc_get(rd, k));
        assert forall|k2: Seq<char>| k2 != k implies #[trigger] assoc_get(r, k2) == assoc_get(
            s,
            k2,
        ) by {
            if s[0].0 == k2 {
            } else {
                assert(assoc_get(r, k2) == assoc_get(rd, k2));
                assert(assoc_get(s, k2) == assoc_get(s.drop_first(), k2));
            }
        }
        assert forall|i: int| 0 <= i < r.len() implies s.contains(#[trigger] r[i]) by {
            if i > 0 {
                assert(r[i] == rd[i - 1]);
                assert(s.drop_first().contains(rd[i - 1]));
                let w = choose|w: int|
                    0 <= w < s.drop_first().len() && s.drop_first()[w] == rd[i - 1];
                assert(s[w + 1] == rd[i - 1]);
            }
        }
        assert forall|i: int, j: int| 0 <= i < j < r.len() implies lex_lt(
            #[trigger] r[i].0,
            #[trigger] r[j].0,
        ) by {
            if i == 0 {
                assert(r[j] == rd[j - 1]);
                assert(s.drop_first().contains(rd[j - 1]));
                let w = choose|w: int|
                    0 <= w < s.drop_first().len() && s.drop_first()[w] == rd[j - 1];
                assert(s[w + 1] == rd[j - 1]);
                assert(lex_lt(s[0].0, s[w + 1].0));
            } else {
                assert(r[i] == rd[i - 1]);
                assert(r[j] == rd[j - 1]);
            }
        }
        assert(assoc_get(s, k) == assoc_get(s.drop_first(), k));
    }
}

/// A map from strings to values; the model is the sorted pair sequence.
pub struct StringMap<V> {
    pairs: Vec<(String, V)>,
}

impl<V: View> View for StringMap<V> {
    type V = Seq<(Seq<char>, V::V)>;

    closed spec fn view(&self) -> Seq<(Seq<char>, V::V)> {
        Seq::new(self.pairs@.len() as nat, |i: int| (self.pairs@[i].0@, self.pairs@[i].1@))
    }
}

impl<V: View> StringMap<V> {
    pub open spec fn wf(&self) -> bool {
        assoc_sorted(self@)
    }

    pub fn new() -> (r: Self)
        ensures
            r@ == Seq::<(Seq<char>, V::V)>::empty(),
            r.wf(),
    {
        let r = StringMap { pairs: Vec::new() };
        proof {
            assert(r@ =~= Seq::<(Seq<char>, V::V)>::empty());
        }
        r
    }

    pub fn len(&self) -> (r: usize)
        ensures
            r == self@.len(),
    {
        self.pairs.len()
    }

    /// The pair at a position of the sorted sequence.
    pub fn pair_at(&self, i: usize) -> (r: (&String, &V))
        requires
            i < self@.len(),
        ensures
            r.0@ == self@[i as int].0,
            r.1@ == self@[i as int].1,
    {
        let p = &self.pairs[i];
        (&p.0, &p.1)
    }

    pub fn get(&self, k: &str) -> (r: Option<&V>)
        ensures
            match r {
                Some(v) => assoc_get(self@, k@) == Some(v@),
                None => assoc_get(self@, k@) is None,
            },
    {
        let n = self.pairs.len();
        let mut i: usize = 0;
        proof {
            assert(self@.skip(0) =~= self@);
        }
        loop
            invariant
                i <= n,
                n == self@.len(),
                assoc_get(self@, k@) == assoc_get(self@.skip(i as int), k@),
            decreases n - i,
        {
            if i == n {
                proof {
                    assert(self@.skip(i as int).len() == 0);
                }
                return None;
            }
            let p = &self.pairs[i];
            proof {
                assert(self@.skip(i as int)[0] == self@[i as int]);
            }
            if str_eq(p.0.as_str(), k) {
                return Some(&p.1);
            }
            proof {
                assert(self@.skip(i as int).drop_first() =~= self@.skip(i + 1));
            }
            i = i + 1;
        }
    }

    pub fn contains_key(&self, k: &str) -> (r: bool)
        ensures
            r == assoc_contains(self@, k@),
    {
        match self.get(k) {
            Some(_) => true,
            None => false,
        }
    }

    /// The first position whose key is not below `k`.
    fn find_at_or_after(&self, k: &str) -> (i: usize)
        ensures
            i <= self@.len(),
            forall|j: int| 0 <= j < i ==> lex_lt(#[trigger] self@[j].0, k@),
            i < self@.len() ==> !lex_lt(self@[i as int].0, k@),
    {
        let n = self.pairs.len();
        let mut i: usize = 0;
        loop
            invariant
                i <= n,
                n == self@.len(),
                forall|j: int| 0 <= j < i ==> lex_lt(#[trigger] self@[j].0, k@),
            decreases n - i,
        {
            if i == n {
                return i;
            }
            let p = &self.pairs[i];
            if !str_lt(p.0.as_str(), k) {
                return i;
            }
            i = i + 1;
        }
    }

    pub fn insert(&mut self, k: String, v: V)
        requires
            old(self).wf(),
        ensures
            final(self)@ == assoc_insert(old(self)@, k@, v@),
            final(self).wf(),
    {
        let ghost s0 = self@;
        let n = self.pairs.len();
        let i = self.find_at_or_after(k.as_str());
        let found_equal: bool = if i < n {
            let p = &self.pairs[i];
            str_eq(p.0.as_str(), k.as_str())
        } else {
            false
        };
        proof {
            lemma_assoc_insert_at(s0, k@, v@, i as int, found_equal);
        }
        if found_equal {
            self.pairs.remove(i);
            self.pairs.insert(i, (k, v));
            proof {
                assert(self@ =~= s0.take(i as int) + seq![(k@, v@)] + s0.skip(i + 1));
                lemma_assoc_insert(s0, k@, v@);
            }
        } else {
            self.pairs.insert(i, (k, v));
            proof {
                assert(self@ =~= s0.take(i as int) + seq![(k@, v@)] + s0.skip(i as int));
                lemma_assoc_insert(s0, k@, v@);
            }
        }
    }

    pub fn remove(&mut self, k: &str) -> (r: Option<V>)
        requires
            old(self).wf(),
        ensures
            final(self)@ == assoc_remove(old(self)@, k@),
            final(self).wf(),
            match r {
                Some(v) => assoc_get(old(self)@, k@) == Some(v@),
                None => assoc_get(old(self)@, k@) is None,
            },
    {
        let ghost s0 = self@;
        let n = self.pairs.len();
        let mut i: usize = 0;
        proof {
            assert(s0.skip(0) =~= s0);
        }
        loop
            invariant
                i <= n,
                n == self@.len(),
                self@ == s0,
                s0 == old(self)@,
                assoc_sorted(s0),
                forall|j: int| 0 <= j < i ==> #[trigger] self@[j].0 != k@,
                assoc_get(s0, k@) == assoc_get(s0.skip(i as int), k@),
            decreases n - i,
        {
            if i == n {
                proof {
                    assert(s0.skip(i as int).len() == 0);
                    lemma_assoc_remove_absent(s0, k@);
                }
                return None;
            }
            let p = &self.pairs[i];
            proof {
                assert(s0.skip(i as int)[0] == s0[i as int]);
            }
            if str_eq(p.0.as_str(), k) {
                let pair = self.pairs.remove(i);
                proof {
                    assert(self@ =~= s0.take(i as int) + s0.skip(i + 1));
                    lemma_assoc_remove_at(s0, k@, i as int);
                    lemma_assoc_remove(s0, k@);
                }
                return Some(pair.1);
            }
            proof {
                assert(s0.skip(i as int).drop_first() =~= s0.skip(i + 1));
            }
            i = i + 1;
        }
    }
}

/// Insertion at the first position whose key is not below the new key.
proof fn lemma_assoc_insert_at<T>(s: Seq<(Seq<char>, T)>, k: Seq<char>, v: T, i: int, eq: bool)
    requires
        assoc_sorted(s),
        0 <= i <= s.len(),
        forall|j: int| 0 <= j < i ==> lex_lt(#[trigger] s[j].0, k),
        eq == (i < s.len() && s[i].0 == k),
        i < s.len() && !eq ==> !lex_lt(s[i].0, k),
    ensures
        eq ==> assoc_insert(s, k, v) == s.take(i) + seq![(k, v)] + s.skip(i + 1),
        !eq ==> assoc_insert(s, k, v) == s.take(i) + seq![(k, v)] + s.skip(i),
    decreases s.len(),
{
    if i == 0 {
        if s.len() == 0 {
            assert(assoc_insert(s, k, v) =~= s.take(0) + seq![(k, v)] + s.skip(0));
        } else if eq {
            assert(assoc_insert(s, k, v) == seq![(k, v)] + s.drop_first());
            assert(s.take(0) + seq![(k, v)] + s.skip(1) =~= seq![(k, v)] + s.drop_first());
        } else {
            lemma_lex_trichotomy(k, s[0].0);
            if s[0].0 == k {
            } else {
                assert(lex_lt(k, s[0].0));
                assert(assoc_insert(s, k, v) == seq![(k, v)] + s);
                assert(s.take(0) + seq![(k, v)] + s.skip(0) =~= seq![(k, v)] + s);
            }
        }
    } else {
        assert(lex_lt(s[0].0, k));
        lemma_lex_trichotomy(s[0].0, k);
        assert(s[0].0 != k);
        assert(!lex_lt(k, s[0].0));
        let d = s.drop_first();
        lemma_sorted_drop_first(s);
        assert(forall|j: int| 0 <= j < i - 1 ==> lex_lt(#[trigger] d[j].0, k));
        assert(eq == (i - 1 < d.len() && d[i - 1].0 == k));
        lemma_assoc_insert_at(d, k, v, i - 1, eq);
        assert(assoc_insert(s, k, v) == seq![s[0]] + assoc_insert(d, k, v));
        if eq {
            assert(seq![s[0]] + (d.take(i - 1) + seq![(k, v)] + d.skip(i)) =~= s.take(i) + seq![
                (k, v),
            ] + s.skip(i + 1));
        } else {
            assert(seq![s[0]] + (d.take(i - 1) + seq![(k, v)] + d.skip(i - 1)) =~= s.take(i)
                + seq![(k, v)] + s.skip(i));
        }
    }
}

/// Removal at the position that holds the key.
proof fn lemma_assoc_remove_at<T>(s: Seq<(Seq<char>, T)>, k: Seq<char>, i: int)
    requires
        0 <= i < s.len(),
        forall|j: int| 0 <= j < i ==> (#[trigger] s[j]).0 != k,
        s[i].0 == k,
    ensures
        assoc_remove(s, k) == s.take(i) + s.skip(i + 1),
    decreases s.len(),
{
    if i == 0 {
        assert(assoc_remove(s, k) == s.drop_first());
        assert(s.take(0) + s.skip(1) =~= s.drop_first());
    } else {
        let d = s.drop_first();
        assert(forall|j: int| 0 <= j < i - 1 ==> (#[trigger] d[j]).0 != k);
        assert(d[i - 1].0 == k);
        lemma_assoc_remove_at(d, k, i - 1);
        assert(assoc_remove(s, k) == seq![s[0]] + assoc_remove(d, k));
        assert(seq![s[0]] + (d.take(i - 1) + d.skip(i)) =~= s.take(i) + s.skip(i + 1));
    }
}

/// Removing an absent key changes nothing.
pub proof fn lemma_assoc_remove_absent<T>(s: Seq<(Seq<char>, T)>, k: Seq<char>)
    requires
        !assoc_contains(s, k),
    ensures
        assoc_remove(s, k) == s,
    decreases s.len(),
{
    if s.len() == 0 {
        assert(assoc_remove(s, k) =~= s);
    } else if s[0].0 == k {
    } else {
        lemma_assoc_remove_absent(s.drop_first(), k);
        assert(seq![s[0]] + s.drop_first() =~= s);
    }
}

} // verus!
