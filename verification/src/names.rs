//! Sets of names, kept in ascending order.
use vstd::hash_set::StringHashSet;
use vstd::prelude::*;

use crate::text::chars_of;

verus! {

/// `a` and `b` agree on their first `k` characters and `a` is the smaller at position `k`:
/// it ends there while `b` goes on, or its character there has the smaller code point.
pub open spec fn splits_below(a: Seq<char>, b: Seq<char>, k: int) -> bool {
    &&& 0 <= k <= a.len()
    &&& k < b.len()
    &&& forall|i: int| 0 <= i < k ==> a[i] == b[i]
    &&& k == a.len() || a[k] < b[k]
}

/// Dictionary order by code point, the order of `str`.
pub open spec fn name_lt(a: Seq<char>, b: Seq<char>) -> bool {
    exists|k: int| splits_below(a, b, k)
}

/// Every name comes before all that follow it; so none occurs twice.
pub open spec fn ascending(s: Seq<Seq<char>>) -> bool {
    forall|i: int, j: int| 0 <= i < j < s.len() ==> name_lt(#[trigger] s[i], #[trigger] s[j])
}

/// No name comes before itself.
pub proof fn name_lt_irreflexive(a: Seq<char>)
    ensures
        !name_lt(a, a),
{
}

/// Of two names in order, the second does not come before the first.
pub proof fn name_lt_asymmetric(a: Seq<char>, b: Seq<char>)
    requires
        name_lt(a, b),
    ensures
        !name_lt(b, a),
{
    let k = choose|k: int| splits_below(a, b, k);
    if name_lt(b, a) {
        let m = choose|m: int| splits_below(b, a, m);
        if k < m {
            assert(a[k] == b[k]);
        } else if m < k {
            assert(a[m] == b[m]);
        }
    }
}

/// The order of names is transitive.
pub proof fn name_lt_transitive(a: Seq<char>, b: Seq<char>, c: Seq<char>)
    requires
        name_lt(a, b),
        name_lt(b, c),
    ensures
        name_lt(a, c),
{
    let k = choose|k: int| splits_below(a, b, k);
    let m = choose|m: int| splits_below(b, c, m);
    if k <= m {
        assert(splits_below(a, c, k)) by {
            assert(forall|i: int| 0 <= i < k ==> a[i] == c[i]);
        }
    } else {
        assert(splits_below(a, c, m));
    }
}

proof fn lemma_total(a: Seq<char>, b: Seq<char>, k: int)
    requires
        0 <= k <= a.len(),
        k <= b.len(),
        forall|i: int| 0 <= i < k ==> a[i] == b[i],
        a != b,
    ensures
        name_lt(a, b) || name_lt(b, a),
    decreases a.len() - k,
{
    if k == a.len() && k == b.len() {
        assert(a =~= b);
    } else if k == a.len() {
        assert(splits_below(a, b, k));
    } else if k == b.len() {
        assert(splits_below(b, a, k));
    } else if a[k] == b[k] {
        lemma_total(a, b, k + 1);
    } else if a[k] < b[k] {
        assert(splits_below(a, b, k));
    } else {
        assert(splits_below(b, a, k));
    }
}

/// Of two different names, one comes before the other.
pub proof fn name_lt_total(a: Seq<char>, b: Seq<char>)
    ensures
        a == b || name_lt(a, b) || name_lt(b, a),
{
    if a != b {
        lemma_total(a, b, 0);
    }
}

/// Whether `a` comes before `b`.
fn name_less(a: &Vec<char>, b: &Vec<char>) -> (r: bool)
    ensures
        r == name_lt(a@, b@),
        !r && a@ != b@ ==> name_lt(b@, a@),
{
    let mut k: usize = 0;
    while k < a.len() && k < b.len() && a[k] == b[k]
        invariant
            k <= a.len(),
            k <= b.len(),
            forall|i: int| 0 <= i < k ==> a@[i] == b@[i],
        decreases a.len() - k,
    {
        k = k + 1;
    }
    if k < b.len() && (k == a.len() || a[k] < b[k]) {
        assert(splits_below(a@, b@, k as int));
        true
    } else {
        proof {
            if k < a.len() {
                assert(splits_below(b@, a@, k as int));
                name_lt_asymmetric(b@, a@);
            } else {
                assert(a@ =~= b@);
            }
        }
        false
    }
}

/// The contents of the strings of `v`, in order.
pub open spec fn contents(v: Seq<String>) -> Seq<Seq<char>> {
    Seq::new(v.len(), |i: int| v[i]@)
}

/// Two ascending sequences with the same names are the same sequence: a set of names has
/// one representation only.
pub proof fn ascending_unique(s: Seq<Seq<char>>, t: Seq<Seq<char>>)
    requires
        ascending(s),
        ascending(t),
        s.to_set() == t.to_set(),
    ensures
        s == t,
    decreases s.len(),
{
    if s.len() == 0 {
        if t.len() > 0 {
            assert(t.to_set().contains(t[0]));
            assert(s.to_set().contains(t[0]));
        }
        assert(s =~= t);
    } else {
        assert(s.to_set().contains(s.last()));
        assert(t.to_set().contains(s.last()));
        assert(t.len() > 0);
        assert(t.to_set().contains(t.last()));
        assert(s.to_set().contains(t.last()));
        let i = choose|i: int| 0 <= i < t.len() && t[i] == s.last();
        let j = choose|j: int| 0 <= j < s.len() && s[j] == t.last();
        if i < t.len() - 1 && j < s.len() - 1 {
            assert(name_lt(t[i], t[t.len() - 1]));
            assert(name_lt(s[j], s[s.len() - 1]));
            name_lt_asymmetric(s.last(), t.last());
        }
        assert(s.last() == t.last());
        let s1 = s.drop_last();
        let t1 = t.drop_last();
        assert forall|x: Seq<char>| s1.to_set().contains(x) == t1.to_set().contains(x) by {
            if s1.contains(x) {
                let k = choose|k: int| 0 <= k < s1.len() && s1[k] == x;
                assert(s[k] == x);
                assert(name_lt(s[k], s[s.len() - 1]));
                name_lt_irreflexive(x);
                assert(s.to_set().contains(x));
                assert(t.to_set().contains(x));
                let m = choose|m: int| 0 <= m < t.len() && t[m] == x;
                assert(m != t.len() - 1);
                assert(t1[m] == x);
            }
            if t1.contains(x) {
                let k = choose|k: int| 0 <= k < t1.len() && t1[k] == x;
                assert(t[k] == x);
                assert(name_lt(t[k], t[t.len() - 1]));
                name_lt_irreflexive(x);
                assert(t.to_set().contains(x));
                assert(s.to_set().contains(x));
                let m = choose|m: int| 0 <= m < s.len() && s[m] == x;
                assert(m != s.len() - 1);
                assert(s1[m] == x);
            }
        }
        assert(s1.to_set() =~= t1.to_set());
        ascending_unique(s1, t1);
        assert(s =~= s1.push(s.last()));
        assert(t =~= t1.push(t.last()));
    }
}

/// A set of names.
#[derive(Debug)]
pub struct NameSet {
    names: Vec<String>,
}

impl View for NameSet {
    type V = Set<Seq<char>>;

    closed spec fn view(&self) -> Set<Seq<char>> {
        contents(self.names@).to_set()
    }
}

impl NameSet {
    #[verifier::type_invariant]
    closed spec fn in_order(&self) -> bool {
        ascending(contents(self.names@))
    }

    /// The set without names.
    pub fn new() -> (r: NameSet)
        ensures
            r@ == Set::<Seq<char>>::empty(),
    {
        let r = NameSet { names: Vec::new() };
        assert(r@ =~= Set::<Seq<char>>::empty());
        r
    }

    /// Whether `name` is in the set.
    pub fn contains(&self, name: &str) -> (r: bool)
        ensures
            r == self@.contains(name@),
    {
        let key: String = name.to_owned();
        let ghost all = contents(self.names@);
        let mut i: usize = 0;
        while i < self.names.len()
            invariant
                i <= self.names.len(),
                key@ == name@,
                all == contents(self.names@),
                forall|j: int| 0 <= j < i ==> all[j] != name@,
            decreases self.names.len() - i,
        {
            if self.names[i] == key {
                assert(all[i as int] == name@);
                assert(self@.contains(name@));
                return true;
            }
            i = i + 1;
        }
        assert(!self@.contains(name@));
        false
    }

    /// Adds `name`; tells whether it was not there before.
    pub fn insert(&mut self, name: String) -> (r: bool)
        ensures
            final(self)@ == old(self)@.insert(name@),
            r == !old(self)@.contains(name@),
    {
        proof {
            use_type_invariant(&*self);
        }
        let ghost all = contents(self.names@);
        let key: Vec<char> = chars_of(name.as_str());
        let mut i: usize = 0;
        let mut below: bool = true;
        while i < self.names.len() && below
            invariant
                i <= self.names.len(),
                key@ == name@,
                all == contents(self.names@),
                ascending(all),
                forall|j: int| 0 <= j < i ==> name_lt(#[trigger] all[j], name@),
                !below ==> i < self.names.len() && !name_lt(all[i as int], name@),
            decreases self.names.len() - i, (if below { 1int } else { 0 }),
        {
            let here: Vec<char> = chars_of(self.names[i].as_str());
            assert(here@ == all[i as int]);
            if name_less(&here, &key) {
                i = i + 1;
            } else {
                below = false;
            }
        }
        if i < self.names.len() && self.names[i] == name {
            assert(all[i as int] == name@);
            assert(self@.contains(name@));
            assert(self@.insert(name@) =~= self@);
            return false;
        }
        let mut names: Vec<String> = Vec::new();
        std::mem::swap(&mut names, &mut self.names);
        let ghost n = name@;
        names.insert(i, name);
        proof {
            let new = contents(names@);
            assert(new =~= all.insert(i as int, n));
            assert forall|a: int, b: int| 0 <= a < b < new.len() implies name_lt(
                #[trigger] new[a],
                #[trigger] new[b],
            ) by {
                if i < all.len() {
                    if all[i as int] == n {
                        assert(false);
                    }
                    name_lt_total(all[i as int], n);
                }
                if a == i {
                    assert(new[b] == all[b - 1]);
                    if b - 1 != i {
                        assert(name_lt(all[i as int], all[b - 1]));
                        name_lt_transitive(n, all[i as int], all[b - 1]);
                    }
                } else if b == i {
                    assert(new[a] == all[a]);
                } else {
                    let a0 = if a < i { a } else { a - 1 };
                    let b0 = if b < i { b } else { b - 1 };
                    assert(new[a] == all[a0] && new[b] == all[b0]);
                    assert(name_lt(all[a0], all[b0]));
                }
            }
            assert forall|x: Seq<char>|
                new.to_set().contains(x) == all.to_set().insert(n).contains(x) by {
                if all.contains(x) {
                    let k = choose|k: int| 0 <= k < all.len() && all[k] == x;
                    assert(new[if k < i { k } else { k + 1 }] == x);
                }
                assert(new[i as int] == n);
                if new.contains(x) && x != n {
                    let k = choose|k: int| 0 <= k < new.len() && new[k] == x;
                    assert(all[if k < i { k } else { k - 1 }] == x);
                }
            }
            assert(new.to_set() =~= all.to_set().insert(n));
            assert(!all.contains(n)) by {
                if all.contains(n) {
                    let k = choose|k: int| 0 <= k < all.len() && all[k] == n;
                    if k < i {
                        assert(name_lt(all[k], n));
                        name_lt_irreflexive(n);
                    } else if k > i {
                        assert(name_lt(all[i as int], all[k]));
                    }
                }
            }
        }
        self.names = names;
        true
    }

    /// Takes `name` out; tells whether it was there.
    pub fn remove(&mut self, name: &str) -> (r: bool)
        ensures
            final(self)@ == old(self)@.remove(name@),
            r == old(self)@.contains(name@),
    {
        proof {
            use_type_invariant(&*self);
        }
        let ghost all = contents(self.names@);
        let key: String = name.to_owned();
        let mut i: usize = 0;
        while i < self.names.len()
            invariant
                i <= self.names.len(),
                *self == *old(self),
                key@ == name@,
                all == contents(self.names@),
                ascending(all),
                forall|j: int| 0 <= j < i ==> all[j] != name@,
            decreases self.names.len() - i,
        {
            if self.names[i] == key {
                assert(all[i as int] == name@);
                assert(self@.contains(name@));
                let mut names: Vec<String> = Vec::new();
                std::mem::swap(&mut names, &mut self.names);
                let _gone: String = names.remove(i);
                proof {
                    let new = contents(names@);
                    assert(new =~= all.remove(i as int));
                    assert forall|a: int, b: int| 0 <= a < b < new.len() implies name_lt(
                        #[trigger] new[a],
                        #[trigger] new[b],
                    ) by {
                        let a0 = if a < i { a } else { a + 1 };
                        let b0 = if b < i { b } else { b + 1 };
                        assert(name_lt(all[a0], all[b0]));
                    }
                    assert forall|x: Seq<char>|
                        new.to_set().contains(x) == all.to_set().remove(name@).contains(x) by {
                        if all.contains(x) && x != name@ {
                            let k = choose|k: int| 0 <= k < all.len() && all[k] == x;
                            assert(new[if k < i { k } else { k - 1 }] == x);
                        }
                        if new.contains(x) {
                            let k = choose|k: int| 0 <= k < new.len() && new[k] == x;
                            let k0 = if k < i { k } else { k + 1 };
                            assert(all[k0] == x);
                            if k0 < i {
                                assert(name_lt(all[k0], all[i as int]));
                            } else {
                                assert(name_lt(all[i as int], all[k0]));
                            }
                            name_lt_irreflexive(x);
                        }
                    }
                    assert(new.to_set() =~= all.to_set().remove(name@));
                }
                self.names = names;
                return true;
            }
            i = i + 1;
        }
        assert(!self@.contains(name@));
        assert(self@.remove(name@) =~= self@);
        false
    }

    /// Takes every name out.
    pub fn clear(&mut self)
        ensures
            final(self)@ == Set::<Seq<char>>::empty(),
    {
        self.names = Vec::new();
        assert(self@ =~= Set::<Seq<char>>::empty());
    }

    /// Keeps only the names that are in `keep`.
    pub fn retain_in(&mut self, keep: &StringHashSet)
        ensures
            final(self)@ == old(self)@.intersect(keep@),
    {
        proof {
            use_type_invariant(&*self);
        }
        let ghost all = contents(self.names@);
        let mut kept: Vec<String> = Vec::new();
        let mut i: usize = 0;
        while i < self.names.len()
            invariant
                i <= self.names.len(),
                *self == *old(self),
                all == contents(self.names@),
                ascending(all),
                ascending(contents(kept@)),
                forall|j: int, k: int|
                    0 <= j < kept.len() && i <= k < all.len() ==> name_lt(
                        #[trigger] contents(kept@)[j],
                        #[trigger] all[k],
                    ),
                forall|x: Seq<char>| #[trigger]
                    contents(kept@).contains(x) <==> all.take(i as int).contains(x)
                        && keep@.contains(x),
            decreases self.names.len() - i,
        {
            let ghost before = contents(kept@);
            let ghost first = all.take(i as int);
            let ghost name = all[i as int];
            proof {
                assert(name == self.names@[i as int]@);
                assert(all.take(i + 1) =~= first.push(name));
                assert forall|x: Seq<char>|
                    #[trigger] all.take(i + 1).contains(x) <==> first.contains(x) || x == name by {
                    if first.contains(x) {
                        let k = choose|k: int| 0 <= k < first.len() && first[k] == x;
                        assert(first.push(name)[k] == x);
                    }
                    assert(first.push(name)[i as int] == name);
                }
            }
            if keep.contains(self.names[i].as_str()) {
                kept.push(self.names[i].clone());
                proof {
                    assert(contents(kept@) =~= before.push(name));
                    assert forall|x: Seq<char>|
                        #[trigger] before.push(name).contains(x) <==> before.contains(x) || x == name by {
                        if before.contains(x) {
                            let k = choose|k: int| 0 <= k < before.len() && before[k] == x;
                            assert(before.push(name)[k] == x);
                        }
                        assert(before.push(name)[before.len() as int] == name);
                    }
                }
            }
            i = i + 1;
        }
        proof {
            assert(all.take(i as int) =~= all);
            assert(contents(kept@).to_set() =~= all.to_set().intersect(keep@));
        }
        self.names = kept;
    }

    /// Whether both sets hold the same names.
    pub fn same_names(&self, other: &NameSet) -> (r: bool)
        ensures
            r == (self@ == other@),
    {
        proof {
            use_type_invariant(self);
            use_type_invariant(other);
        }
        let ghost a = contents(self.names@);
        let ghost b = contents(other.names@);
        if self.names.len() != other.names.len() {
            proof {
                if self@ == other@ {
                    ascending_unique(a, b);
                }
            }
            return false;
        }
        let mut i: usize = 0;
        while i < self.names.len()
            invariant
                i <= self.names.len(),
                self.names.len() == other.names.len(),
                a == contents(self.names@),
                b == contents(other.names@),
                ascending(a),
                ascending(b),
                forall|j: int| 0 <= j < i ==> a[j] == b[j],
            decreases self.names.len() - i,
        {
            if self.names[i] != other.names[i] {
                proof {
                    assert(a[i as int] != b[i as int]);
                    if self@ == other@ {
                        ascending_unique(a, b);
                    }
                }
                return false;
            }
            i = i + 1;
        }
        assert(a =~= b);
        true
    }
}

impl Clone for NameSet {
    fn clone(&self) -> (r: NameSet)
        ensures
            r@ == self@,
    {
        proof {
            use_type_invariant(self);
        }
        let mut names: Vec<String> = Vec::new();
        let mut i: usize = 0;
        while i < self.names.len()
            invariant
                i <= self.names.len(),
                names@ == self.names@.take(i as int),
            decreases self.names.len() - i,
        {
            names.push(self.names[i].clone());
            i = i + 1;
            assert(names@ =~= self.names@.take(i as int));
        }
        assert(names@ =~= self.names@);
        NameSet { names }
    }
}

impl PartialEq for NameSet {
    fn eq(&self, other: &NameSet) -> (r: bool) {
        self.same_names(other)
    }
}

impl vstd::std_specs::cmp::PartialEqSpecImpl for NameSet {
    open spec fn obeys_eq_spec() -> bool {
        true
    }

    open spec fn eq_spec(&self, other: &NameSet) -> bool {
        self@ == other@
    }
}

impl Eq for NameSet {
}

} // verus!
