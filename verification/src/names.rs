//! The order of names. The children of a coupled model are kept in the
//! order of their names, so that a simulation visits them in the same
//! order every time it runs.

use vstd::prelude::*;

verus! {

/// Whether the text `a` comes before the text `b`: the order of a
/// dictionary, with each character taken by its number in Unicode. A text
/// comes after each of its own beginnings.
pub open spec fn text_before(a: Seq<char>, b: Seq<char>) -> bool
    decreases a.len(),
{
    if b.len() == 0 {
        false
    } else if a.len() == 0 {
        true
    } else if a[0] != b[0] {
        (a[0] as int) < (b[0] as int)
    } else {
        text_before(a.drop_first(), b.drop_first())
    }
}

/// Whether the names are in rising order, so that none comes twice.
pub open spec fn names_rise(names: Seq<Seq<char>>) -> bool {
    forall|i: int, j: int| 0 <= i < j < names.len() ==> text_before(names[i], names[j])
}

/// Leaving out a beginning that two texts share does not change which of
/// them comes first.
pub proof fn shared_beginning_decides_nothing(a: Seq<char>, b: Seq<char>, n: int)
    requires
        0 <= n <= a.len(),
        n <= b.len(),
        forall|k: int| 0 <= k < n ==> a[k] == b[k],
    ensures
        text_before(a, b) == text_before(a.skip(n), b.skip(n)),
    decreases n,
{
    if n == 0 {
        assert(a.skip(0) =~= a);
        assert(b.skip(0) =~= b);
    } else {
        assert(a[0] == b[0]);
        assert forall|k: int| 0 <= k < n - 1 implies a.drop_first()[k] == b.drop_first()[k] by {
            assert(a[k + 1] == b[k + 1]);
        }
        shared_beginning_decides_nothing(a.drop_first(), b.drop_first(), n - 1);
        assert(a.drop_first().skip(n - 1) =~= a.skip(n));
        assert(b.drop_first().skip(n - 1) =~= b.skip(n));
    }
}

/// Whether `a` comes before `b`, as `<` on `String` orders them.
pub fn comes_before(a: &String, b: &String) -> (before: bool)
    ensures
        before == text_before(a@, b@),
{
    let first = a.as_str();
    let second = b.as_str();
    let length = first.unicode_len();
    let other = second.unicode_len();
    let mut i: usize = 0;
    while i < length && i < other
        invariant
            first@ == a@,
            second@ == b@,
            length == a@.len(),
            other == b@.len(),
            i <= length,
            i <= other,
            forall|k: int| 0 <= k < i ==> a@[k] == b@[k],
        decreases length - i,
    {
        let c = first.get_char(i);
        let d = second.get_char(i);
        if c != d {
            proof {
                shared_beginning_decides_nothing(a@, b@, i as int);
            }
            return (c as u32) < (d as u32);
        }
        i += 1;
    }
    proof {
        shared_beginning_decides_nothing(a@, b@, i as int);
    }
    i < other
}

/// No text comes before itself.
pub proof fn text_order_is_strict(a: Seq<char>)
    ensures
        !text_before(a, a),
    decreases a.len(),
{
    if a.len() > 0 {
        text_order_is_strict(a.drop_first());
    }
}

/// Of two different texts, one comes before the other.
pub proof fn text_order_is_total(a: Seq<char>, b: Seq<char>)
    ensures
        text_before(a, b) || text_before(b, a) || a == b,
        !(text_before(a, b) && text_before(b, a)),
    decreases a.len(),
{
    if a.len() > 0 && b.len() > 0 {
        if a[0] == b[0] {
            text_order_is_total(a.drop_first(), b.drop_first());
            if a.drop_first() == b.drop_first() {
                assert(a =~= seq![a[0]] + a.drop_first());
                assert(b =~= seq![b[0]] + b.drop_first());
            }
        } else {
            assert((a[0] as int) != (b[0] as int));
        }
    } else if a.len() == 0 && b.len() == 0 {
        assert(a =~= b);
    }
}

/// What comes before a text comes before everything after that text.
pub proof fn text_order_is_transitive(a: Seq<char>, b: Seq<char>, c: Seq<char>)
    requires
        text_before(a, b),
        text_before(b, c),
    ensures
        text_before(a, c),
    decreases a.len(),
{
    if a.len() > 0 && b.len() > 0 && c.len() > 0 {
        if a[0] == b[0] && b[0] == c[0] {
            text_order_is_transitive(a.drop_first(), b.drop_first(), c.drop_first());
        }
    }
}

/// The place of `name` among `names`: just behind the last of them that
/// comes before it. Among rising names, this is where `name` belongs.
pub open spec fn place(names: Seq<Seq<char>>, name: Seq<char>) -> int
    decreases names.len(),
{
    if names.len() == 0 {
        0
    } else if text_before(names.last(), name) {
        names.len() as int
    } else {
        place(names.drop_last(), name)
    }
}

/// Among rising names, every name in front of the place of `name` comes
/// before it, and no name from there on does.
pub proof fn place_divides(names: Seq<Seq<char>>, name: Seq<char>)
    requires
        names_rise(names),
    ensures
        0 <= place(names, name) <= names.len(),
        forall|i: int| 0 <= i < place(names, name) ==> text_before(#[trigger] names[i], name),
        forall|i: int| place(names, name) <= i < names.len()
            ==> !text_before(#[trigger] names[i], name),
    decreases names.len(),
{
    if names.len() > 0 {
        let front = names.drop_last();
        assert(names_rise(front)) by {
            assert forall|i: int, j: int| 0 <= i < j < front.len() implies text_before(
                front[i],
                front[j],
            ) by {
                assert(text_before(names[i], names[j]));
            }
        }
        if text_before(names.last(), name) {
            assert forall|i: int| 0 <= i < names.len() implies text_before(
                #[trigger] names[i],
                name,
            ) by {
                if i < names.len() - 1 {
                    assert(text_before(names[i], names[names.len() - 1]));
                    text_order_is_transitive(names[i], names.last(), name);
                }
            }
        } else {
            place_divides(front, name);
            assert forall|i: int| 0 <= i < place(names, name) implies text_before(
                #[trigger] names[i],
                name,
            ) by {
                assert(text_before(front[i], name));
            }
            assert forall|i: int| place(names, name) <= i < names.len() implies !text_before(
                #[trigger] names[i],
                name,
            ) by {
                if i < names.len() - 1 {
                    assert(!text_before(front[i], name));
                }
            }
        }
    }
}

/// A place that divides rising names as the place of `name` does is the
/// place of `name`.
pub proof fn place_is_the_only_one(names: Seq<Seq<char>>, name: Seq<char>, at: int)
    requires
        names_rise(names),
        0 <= at <= names.len(),
        forall|i: int| 0 <= i < at ==> text_before(#[trigger] names[i], name),
        forall|i: int| at <= i < names.len() ==> !text_before(#[trigger] names[i], name),
    ensures
        at == place(names, name),
{
    place_divides(names, name);
    let p = place(names, name);
    if at < p {
        assert(text_before(names[at], name));
    } else if p < at {
        assert(text_before(names[p], name));
    }
}

/// A name that is put at its place among rising names, and is not one of
/// them, leaves them rising.
pub proof fn rising_names_stay_rising(names: Seq<Seq<char>>, name: Seq<char>)
    requires
        names_rise(names),
        !names.contains(name),
    ensures
        names_rise(names.insert(place(names, name), name)),
{
    place_divides(names, name);
    let p = place(names, name);
    let after = names.insert(p, name);
    assert forall|i: int, j: int| 0 <= i < j < after.len() implies text_before(
        after[i],
        after[j],
    ) by {
        if j < p {
            assert(text_before(names[i], names[j]));
        } else if j == p {
            assert(text_before(names[i], name));
        } else if i == p {
            assert(!text_before(names[j - 1], name));
            assert(names[j - 1] != name);
            text_order_is_total(names[j - 1], name);
        } else if i < p {
            assert(text_before(names[i], names[j - 1]));
        } else {
            assert(text_before(names[i - 1], names[j - 1]));
        }
    }
}

/// The first place at which `name` stands among `names`; their number, if
/// it stands at none.
pub open spec fn first_place(names: Seq<Seq<char>>, name: Seq<char>) -> int
    decreases names.len(),
{
    if names.len() == 0 {
        0
    } else if names[0] == name {
        0
    } else {
        1 + first_place(names.drop_first(), name)
    }
}

/// The place in front of which the name does not stand, and at which it
/// stands, if the place is one of the list, is the first place of the
/// name.
pub proof fn first_place_is(names: Seq<Seq<char>>, name: Seq<char>, at: int)
    requires
        0 <= at <= names.len(),
        forall|k: int| 0 <= k < at ==> #[trigger] names[k] != name,
        at < names.len() ==> names[at] == name,
    ensures
        first_place(names, name) == at,
    decreases names.len(),
{
    if names.len() > 0 && at > 0 {
        assert(names[0] != name);
        let rest = names.drop_first();
        assert forall|k: int| 0 <= k < at - 1 implies #[trigger] rest[k] != name by {
            assert(names[k + 1] != name);
        }
        first_place_is(rest, name, at - 1);
    }
}

/// Whether `name` is among `names`.
pub fn holds_name(names: &Vec<String>, name: &String) -> (found: bool)
    ensures
        found == names_view(names@).contains(name@),
{
    let mut i: usize = 0;
    while i < names.len()
        invariant
            i <= names@.len(),
            forall|k: int| 0 <= k < i ==> names@[k]@ != name@,
        decreases names@.len() - i,
    {
        if names[i] == *name {
            proof {
                assert(names_view(names@)[i as int] == name@);
            }
            return true;
        }
        i += 1;
    }
    proof {
        let view = names_view(names@);
        assert forall|k: int| 0 <= k < view.len() implies view[k] != name@ by {
            assert(view[k] == names@[k]@);
        }
    }
    false
}

/// The texts of the names.
pub open spec fn names_view(names: Seq<String>) -> Seq<Seq<char>> {
    Seq::new(names.len(), |i: int| names[i]@)
}

} // verus!
