//! Laws of sets of names.
use vstd::hash_set::StringHashSet;
use vstd::prelude::*;

use crate::names::NameSet;

verus! {

/// A new set holds no name.
pub proof fn new_sets_are_empty(s: NameSet, name: &str, r: bool)
    requires
        call_ensures(NameSet::new, (), s),
        call_ensures(NameSet::contains, (&s, name), r),
    ensures
        !r,
{
}

/// A set holds a name after it was put in, and every other name if it did before. Putting it in
/// tells whether it is new.
pub proof fn names_put_in_are_there(
    x: &mut NameSet,
    put: String,
    new: bool,
    before: NameSet,
    after: NameSet,
    name: &str,
    was: bool,
    now: bool,
)
    requires
        before == *old(x),
        after == *final(x),
        call_ensures(NameSet::insert, (x, put), new),
        call_ensures(NameSet::contains, (&before, name), was),
        call_ensures(NameSet::contains, (&after, name), now),
    ensures
        name@ == put@ ==> now && new == !was,
        name@ != put@ ==> now == was,
{
}

/// A set does not hold a name after it was taken out, and every other name if it did before.
/// Taking it out tells whether it was there.
pub proof fn names_taken_out_are_gone(
    x: &mut NameSet,
    out: &str,
    there: bool,
    before: NameSet,
    after: NameSet,
    name: &str,
    was: bool,
    now: bool,
)
    requires
        before == *old(x),
        after == *final(x),
        call_ensures(NameSet::remove, (x, out), there),
        call_ensures(NameSet::contains, (&before, name), was),
        call_ensures(NameSet::contains, (&after, name), now),
    ensures
        name@ == out@ ==> !now && there == was,
        name@ != out@ ==> now == was,
{
}

/// Of a cleared set no name is left, and of one that is held against another those that the
/// other holds.
pub proof fn names_are_kept_or_dropped(
    x: &mut NameSet,
    y: &mut NameSet,
    keep: StringHashSet,
    cleared: NameSet,
    before: NameSet,
    after: NameSet,
    name: &str,
    left: bool,
    was: bool,
    now: bool,
)
    requires
        cleared == *final(x),
        before == *old(y),
        after == *final(y),
        call_ensures(NameSet::clear, (x,), ()),
        call_ensures(NameSet::retain_in, (y, &keep), ()),
        call_ensures(NameSet::contains, (&cleared, name), left),
        call_ensures(NameSet::contains, (&before, name), was),
        call_ensures(NameSet::contains, (&after, name), now),
    ensures
        !left,
        now == (was && keep@.contains(name@)),
{
}

/// A copy holds the same names; sets that hold the same names are told to be the same, and
/// others are not.
pub proof fn copies_hold_the_same(
    a: NameSet,
    b: NameSet,
    copy: NameSet,
    same: bool,
    name: &str,
    in_a: bool,
    in_b: bool,
    in_copy: bool,
)
    requires
        call_ensures(NameSet::clone, (&a,), copy),
        call_ensures(NameSet::same_names, (&a, &b), same),
        call_ensures(NameSet::contains, (&a, name), in_a),
        call_ensures(NameSet::contains, (&b, name), in_b),
        call_ensures(NameSet::contains, (&copy, name), in_copy),
    ensures
        in_copy == in_a,
        in_a != in_b ==> !same,
        (forall|n: Seq<char>| #[trigger] a@.contains(n) <==> b@.contains(n)) ==> same,
{
    if forall|n: Seq<char>| #[trigger] a@.contains(n) <==> b@.contains(n) {
        assert(a@ =~= b@);
    }
}

} // verus!
