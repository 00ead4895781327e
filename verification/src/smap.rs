//! A small association map keyed by string content.
//!
//! Entries keep their insertion order, which makes every iteration the
//! engine performs deterministic; keys are pairwise distinct by content.
//! Contracts speak about the deep view of the entry list: a sequence of
//! (key characters, value view) pairs.

use vstd::prelude::*;
use crate::strutil::str_eq;

verus! {

/// First index in `s` whose key is `k`, or `s.len()` if none.
pub open spec fn vfind<X>(s: Seq<(Seq<char>, X)>, k: Seq<char>) -> int
    decreases s.len(),
{
    if s.len() == 0 {
        0
    } else if s[0].0 == k {
        0
    } else {
        1 + vfind(s.drop_first(), k)
    }
}

/// Whether some entry of `s` has key `k`.
pub open spec fn vhas<X>(s: Seq<(Seq<char>, X)>, k: Seq<char>) -> bool {
    vfind(s, k) < s.len()
}

/// The value stored under key `k`, if any.
pub open spec fn vget<X>(s: Seq<(Seq<char>, X)>, k: Seq<char>) -> Option<X> {
    if vhas(s, k) {
        Some(s[vfind(s, k)].1)
    } else {
        None
    }
}

/// The entry list after storing `x` under `k`: replaced in place when the
/// key is present, appended at the end when it is new.
pub open spec fn vput<X>(s: Seq<(Seq<char>, X)>, k: Seq<char>, x: X) -> Seq<(Seq<char>, X)> {
    if vhas(s, k) {
        s.update(vfind(s, k), (k, x))
    } else {
        s.push((k, x))
    }
}

/// Keys pairwise distinct.
pub open spec fn vunique<X>(s: Seq<(Seq<char>, X)>) -> bool {
    forall|i: int, j: int| 0 <= i < j < s.len() ==> s[i].0 != s[j].0
}

/// `vfind` returns the first matching index.
pub proof fn lemma_vfind_is_first<X>(s: Seq<(Seq<char>, X)>, k: Seq<char>)
    ensures
        0 <= vfind(s, k) <= s.len(),
        forall|i: int| 0 <= i < vfind(s, k) ==> s[i].0 != k,
        vfind(s, k) < s.len() ==> s[vfind(s, k)].0 == k,
        forall|i: int| 0 <= i < s.len() && s[i].0 == k ==> vfind(s, k) <= i,
    decreases s.len(),
{
    if s.len() > 0 && s[0].0 != k {
        lemma_vfind_is_first(s.drop_first(), k);
        assert forall|i: int| 0 <= i < s.len() && s[i].0 == k implies vfind(s, k) <= i by {
            assert(s.drop_first()[i - 1] == s[i]);
        }
        assert forall|i: int| 0 <= i < vfind(s, k) implies s[i].0 != k by {
            if i > 0 {
                assert(s.drop_first()[i - 1] == s[i]);
            }
        }
    }
}

/// Looking a key up after a put: the stored value under the put key,
/// every other key unchanged.
pub proof fn lemma_vput_get<X>(s: Seq<(Seq<char>, X)>, k: Seq<char>, x: X, k2: Seq<char>)
    requires
        vunique(s),
    ensures
        vget(vput(s, k, x), k2) == if k2 == k {
            Some(x)
        } else {
            vget(s, k2)
        },
        vunique(vput(s, k, x)),
{
    lemma_vfind_is_first(s, k);
    lemma_vfind_is_first(s, k2);
    let t = vput(s, k, x);
    lemma_vfind_is_first(t, k2);
    if vhas(s, k) {
        let p = vfind(s, k);
        assert(t == s.update(p, (k, x)));
        assert forall|i: int, j: int| 0 <= i < j < t.len() implies t[i].0 != t[j].0 by {
            assert(s[i].0 != s[j].0);
        }
        if k2 == k {
            assert(t[p].0 == k2);
            assert(vfind(t, k2) == p);
        } else {
            if vhas(s, k2) {
                let q = vfind(s, k2);
                assert(t[q].0 == k2);
                assert(vfind(t, k2) == q);
            } else {
                assert(forall|i: int| 0 <= i < t.len() ==> t[i].0 != k2);
            }
        }
    } else {
        assert(t == s.push((k, x)));
        assert(forall|i: int| 0 <= i < s.len() ==> s[i].0 != k);
        assert forall|i: int, j: int| 0 <= i < j < t.len() implies t[i].0 != t[j].0 by {
            if j < s.len() {
                assert(s[i].0 != s[j].0);
            }
        }
        if k2 == k {
            assert(t[s.len() as int].0 == k2);
            assert(vfind(t, k2) == s.len());
        } else {
            if vhas(s, k2) {
                let q = vfind(s, k2);
                assert(t[q].0 == k2);
                assert(vfind(t, k2) == q);
            } else {
                assert(forall|i: int| 0 <= i < t.len() ==> t[i].0 != k2);
            }
        }
    }
}

/// An association list from string keys to values, in insertion order.
pub struct SMap<V> {
    pub entries: Vec<(String, V)>,
}

impl<V: DeepView> View for SMap<V> {
    type V = Seq<(Seq<char>, <V as DeepView>::V)>;

    open spec fn view(&self) -> Seq<(Seq<char>, <V as DeepView>::V)> {
        self.entries.deep_view()
    }
}

impl<V: DeepView> SMap<V> {
    /// Well-formed: keys pairwise distinct.
    pub open spec fn wf(self) -> bool {
        vunique(self@)
    }

    /// The deep view of the entry at an index.
    pub proof fn lemma_entry_view(&self, i: int)
        requires
            0 <= i < self.entries@.len(),
        ensures
            self@.len() == self.entries@.len(),
            self@[i] == (self.entries@[i].0@, self.entries@[i].1.deep_view()),
    {
    }

    /// The empty map.
    pub fn new() -> (r: SMap<V>)
        ensures
            r@ == Seq::<(Seq<char>, <V as DeepView>::V)>::empty(),
            r.wf(),
    {
        let r = SMap { entries: Vec::new() };
        proof {
            assert(r@ =~= Seq::<(Seq<char>, <V as DeepView>::V)>::empty());
        }
        r
    }

    /// Number of entries.
    pub fn len(&self) -> (r: usize)
        ensures
            r == self@.len(),
    {
        self.entries.len()
    }

    /// Index of the first entry whose key has content `k@`, or the
    /// number of entries when the key is absent.
    pub fn find(&self, k: &str) -> (r: usize)
        ensures
            r == vfind(self@, k@),
    {
        proof {
            lemma_vfind_is_first(self@, k@);
        }
        let n = self.entries.len();
        let mut i: usize = 0;
        while i < n
            invariant
                0 <= i <= n == self.entries@.len(),
                n == self@.len(),
                forall|j: int| 0 <= j < n ==> #[trigger] self@[j].0 == self.entries@[j].0@,
                forall|j: int| 0 <= j < i ==> self@[j].0 != k@,
            decreases n - i,
        {
            if str_eq(self.entries[i].0.as_str(), k) {
                proof {
                    lemma_vfind_is_first(self@, k@);
                    assert(self@[i as int].0 == k@);
                    assert(vfind(self@, k@) <= i as int);
                    if vfind(self@, k@) < i as int {
                        assert(self@[vfind(self@, k@)].0 == k@);
                    }
                }
                return i;
            }
            i = i + 1;
        }
        proof {
            lemma_vfind_is_first(self@, k@);
        }
        n
    }

    /// Borrow the value stored under `k`, if any.
    pub fn get<'a>(&'a self, k: &str) -> (r: Option<&'a V>)
        ensures
            match r {
                Some(v) => vget(self@, k@) == Some(v.deep_view()),
                None => vget(self@, k@) is None,
            },
    {
        let i = self.find(k);
        if i < self.entries.len() {
            proof {
                self.lemma_entry_view(i as int);
            }
            Some(&self.entries[i].1)
        } else {
            None
        }
    }

    /// Store `v` under `k`, replacing in place or appending.
    pub fn insert(&mut self, k: String, v: V)
        requires
            old(self).wf(),
        ensures
            final(self)@ == vput(old(self)@, k@, v.deep_view()),
            final(self).wf(),
    {
        proof {
            lemma_vput_get(old(self)@, k@, v.deep_view(), k@);
        }
        let ghost pre = self@;
        let i = self.find(k.as_str());
        if i < self.entries.len() {
            self.entries[i] = (k, v);
            proof {
                assert(self@ =~= vput(pre, k@, v.deep_view()));
            }
        } else {
            self.entries.push((k, v));
            proof {
                assert(self@ =~= vput(pre, k@, v.deep_view()));
            }
        }
    }

    /// Drop every entry.
    pub fn clear(&mut self)
        ensures
            final(self)@ == Seq::<(Seq<char>, <V as DeepView>::V)>::empty(),
            final(self).wf(),
    {
        self.entries.clear();
        proof {
            assert(self@ =~= Seq::<(Seq<char>, <V as DeepView>::V)>::empty());
        }
    }
}

} // verus!
