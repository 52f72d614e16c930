//! Verified sorts for the listing operations.
//!
//! Each listing returns entities in a kind-specific order; the sorts here are
//! selection sorts that provably keep the multiset of elements and establish
//! the order the repository promises.  Venue names are ordered by plain
//! lexicographic comparison of their character sequences.

use vstd::prelude::*;
use crate::models::{Event, Package, User, Registration, Venue};

verus! {

broadcast use vstd::seq_lib::group_to_multiset_ensures, vstd::multiset::group_multiset_axioms;

/// Lexicographic order on character sequences.
pub open spec fn lex_leq(a: Seq<char>, b: Seq<char>) -> bool
    decreases a.len(),
{
    if a.len() == 0 {
        true
    } else if b.len() == 0 {
        false
    } else if a[0] != b[0] {
        a[0] < b[0]
    } else {
        lex_leq(a.drop_first(), b.drop_first())
    }
}

/// The lexicographic order relates every pair of sequences one way or the
/// other; in particular it is reflexive.
pub proof fn lemma_lex_total(a: Seq<char>, b: Seq<char>)
    ensures
        lex_leq(a, b) || lex_leq(b, a),
    decreases a.len(),
{
    if a.len() > 0 && b.len() > 0 && a[0] == b[0] {
        lemma_lex_total(a.drop_first(), b.drop_first());
    }
}

/// The lexicographic order is transitive.
pub proof fn lemma_lex_trans(a: Seq<char>, b: Seq<char>, c: Seq<char>)
    requires
        lex_leq(a, b),
        lex_leq(b, c),
    ensures
        lex_leq(a, c),
    decreases a.len(),
{
    if a.len() > 0 && b.len() > 0 && c.len() > 0 && a[0] == b[0] && b[0] == c[0] {
        lemma_lex_trans(a.drop_first(), b.drop_first(), c.drop_first());
    }
}

/// Dropping an equal prefix does not change the lexicographic order.
proof fn lemma_lex_skip(a: Seq<char>, b: Seq<char>, i: int)
    requires
        0 <= i <= a.len(),
        i <= b.len(),
        forall|j: int| 0 <= j < i ==> a[j] == b[j],
    ensures
        lex_leq(a, b) == lex_leq(a.skip(i), b.skip(i)),
    decreases i,
{
    if i > 0 {
        assert(a.len() > 0 && b.len() > 0 && a[0] == b[0]);
        assert(lex_leq(a, b) == lex_leq(a.drop_first(), b.drop_first()));
        let a1 = a.drop_first();
        let b1 = b.drop_first();
        assert(forall|j: int| 0 <= j < i - 1 ==> a1[j] == b[j + 1] && a1[j] == b1[j]);
        lemma_lex_skip(a1, b1, i - 1);
        assert(a1.skip(i - 1) =~= a.skip(i));
        assert(b1.skip(i - 1) =~= b.skip(i));
    } else {
        assert(a.skip(0) =~= a);
        assert(b.skip(0) =~= b);
    }
}

/// Compares two strings in lexicographic character order.
pub fn str_lex_leq(a: &str, b: &str) -> (r: bool)
    ensures
        r == lex_leq(a@, b@),
{
    let alen = a.unicode_len();
    let blen = b.unicode_len();
    let mut i: usize = 0;
    loop
        invariant
            0 <= i <= alen,
            i <= blen,
            alen == a@.len(),
            blen == b@.len(),
            forall|j: int| 0 <= j < i ==> a@[j] == b@[j],
        ensures
            i <= alen && i <= blen,
            i == alen || i == blen,
            forall|j: int| 0 <= j < i ==> a@[j] == b@[j],
        decreases alen - i,
    {
        if i == alen || i == blen {
            break;
        }
        let ca = a.get_char(i);
        let cb = b.get_char(i);
        if ca != cb {
            proof {
                lemma_lex_skip(a@, b@, i as int);
                assert(a@.skip(i as int)[0] == ca && b@.skip(i as int)[0] == cb);
            }
            return ca < cb;
        }
        i = i + 1;
    }
    proof {
        lemma_lex_skip(a@, b@, i as int);
        if i == alen {
            assert(a@.skip(i as int).len() == 0);
        } else {
            assert(b@.skip(i as int).len() == 0 && a@.skip(i as int).len() > 0);
        }
    }
    alen <= blen
}

/// `s` is ordered by start time, ascending.
pub open spec fn events_sorted_by_start(s: Seq<Event>) -> bool {
    forall|i: int, j: int| 0 <= i < j < s.len() ==> s[i].start_date <= s[j].start_date
}

/// Sorts by start time, ascending, keeping exactly the given elements.
pub fn sort_events_by_start(input: Vec<Event>) -> (out: Vec<Event>)
    ensures
        out@.to_multiset() == input@.to_multiset(),
        events_sorted_by_start(out@),
{
    let ghost orig = input@;
    let mut rest = input;
    let mut out: Vec<Event> = Vec::new();
    proof {
        assert(out@.to_multiset().add(rest@.to_multiset()) =~= orig.to_multiset());
    }
    while rest.len() > 0
        invariant
            out@.to_multiset().add(rest@.to_multiset()) == orig.to_multiset(),
            events_sorted_by_start(out@),
            forall|x: int, y: int|
                0 <= x < out@.len() && 0 <= y < rest@.len() ==> out@[x].start_date <= rest@[y].start_date,
        decreases rest.len(),
    {
        let mut mi: usize = 0;
        let mut j: usize = 1;

        while j < rest.len()
            invariant
                0 < rest.len(),
                mi < j <= rest.len(),
                forall|t: int| 0 <= t < j ==> rest@[mi as int].start_date <= #[trigger] rest@[t].start_date,
            decreases rest.len() - j,
        {
            if rest[j].start_date < rest[mi].start_date {
                mi = j;
            }
            j = j + 1;
        }
        let ghost o0 = out@;
        let ghost r0 = rest@;
        proof {
            r0.to_multiset_ensures();
            o0.to_multiset_ensures();
            r0.remove_ensures(mi as int);
        }
        let e = rest.remove(mi);
        out.push(e);
        proof {
            assert(out@.to_multiset() =~= o0.to_multiset().insert(e));
            assert(rest@.to_multiset() =~= r0.to_multiset().remove(e));
            assert(out@.to_multiset().add(rest@.to_multiset()) =~= orig.to_multiset());
        }
    }
    proof {
        assert(out@.to_multiset().add(rest@.to_multiset()) =~= out@.to_multiset());
    }
    out
}

/// `s` is ordered by price, ascending.
pub open spec fn packages_sorted_by_price(s: Seq<Package>) -> bool {
    forall|i: int, j: int| 0 <= i < j < s.len() ==> s[i].price <= s[j].price
}

/// Sorts by price, ascending, keeping exactly the given elements.
pub fn sort_packages_by_price(input: Vec<Package>) -> (out: Vec<Package>)
    ensures
        out@.to_multiset() == input@.to_multiset(),
        packages_sorted_by_price(out@),
{
    let ghost orig = input@;
    let mut rest = input;
    let mut out: Vec<Package> = Vec::new();
    proof {
        assert(out@.to_multiset().add(rest@.to_multiset()) =~= orig.to_multiset());
    }
    while rest.len() > 0
        invariant
            out@.to_multiset().add(rest@.to_multiset()) == orig.to_multiset(),
            packages_sorted_by_price(out@),
            forall|x: int, y: int|
                0 <= x < out@.len() && 0 <= y < rest@.len() ==> out@[x].price <= rest@[y].price,
        decreases rest.len(),
    {
        let mut mi: usize = 0;
        let mut j: usize = 1;

        while j < rest.len()
            invariant
                0 < rest.len(),
                mi < j <= rest.len(),
                forall|t: int| 0 <= t < j ==> rest@[mi as int].price <= #[trigger] rest@[t].price,
            decreases rest.len() - j,
        {
            if rest[j].price < rest[mi].price {
                mi = j;
            }
            j = j + 1;
        }
        let ghost o0 = out@;
        let ghost r0 = rest@;
        proof {
            r0.to_multiset_ensures();
            o0.to_multiset_ensures();
            r0.remove_ensures(mi as int);
        }
        let e = rest.remove(mi);
        out.push(e);
        proof {
            assert(out@.to_multiset() =~= o0.to_multiset().insert(e));
            assert(rest@.to_multiset() =~= r0.to_multiset().remove(e));
            assert(out@.to_multiset().add(rest@.to_multiset()) =~= orig.to_multiset());
        }
    }
    proof {
        assert(out@.to_multiset().add(rest@.to_multiset()) =~= out@.to_multiset());
    }
    out
}

/// `s` is ordered by creation time, ascending.
pub open spec fn users_sorted_by_created(s: Seq<User>) -> bool {
    forall|i: int, j: int| 0 <= i < j < s.len() ==> s[i].created_at <= s[j].created_at
}

/// Sorts by creation time, ascending, keeping exactly the given elements.
pub fn sort_users_by_created(input: Vec<User>) -> (out: Vec<User>)
    ensures
        out@.to_multiset() == input@.to_multiset(),
        users_sorted_by_created(out@),
{
    let ghost orig = input@;
    let mut rest = input;
    let mut out: Vec<User> = Vec::new();
    proof {
        assert(out@.to_multiset().add(rest@.to_multiset()) =~= orig.to_multiset());
    }
    while rest.len() > 0
        invariant
            out@.to_multiset().add(rest@.to_multiset()) == orig.to_multiset(),
            users_sorted_by_created(out@),
            forall|x: int, y: int|
                0 <= x < out@.len() && 0 <= y < rest@.len() ==> out@[x].created_at <= rest@[y].created_at,
        decreases rest.len(),
    {
        let mut mi: usize = 0;
        let mut j: usize = 1;

        while j < rest.len()
            invariant
                0 < rest.len(),
                mi < j <= rest.len(),
                forall|t: int| 0 <= t < j ==> rest@[mi as int].created_at <= #[trigger] rest@[t].created_at,
            decreases rest.len() - j,
        {
            if rest[j].created_at < rest[mi].created_at {
                mi = j;
            }
            j = j + 1;
        }
        let ghost o0 = out@;
        let ghost r0 = rest@;
        proof {
            r0.to_multiset_ensures();
            o0.to_multiset_ensures();
            r0.remove_ensures(mi as int);
        }
        let e = rest.remove(mi);
        out.push(e);
        proof {
            assert(out@.to_multiset() =~= o0.to_multiset().insert(e));
            assert(rest@.to_multiset() =~= r0.to_multiset().remove(e));
            assert(out@.to_multiset().add(rest@.to_multiset()) =~= orig.to_multiset());
        }
    }
    proof {
        assert(out@.to_multiset().add(rest@.to_multiset()) =~= out@.to_multiset());
    }
    out
}

/// `s` is ordered by creation time, newest first.
pub open spec fn registrations_sorted_by_created_desc(s: Seq<Registration>) -> bool {
    forall|i: int, j: int| 0 <= i < j < s.len() ==> s[i].created_at >= s[j].created_at
}

/// Sorts by creation time, newest first, keeping exactly the given elements.
pub fn sort_registrations_by_created_desc(input: Vec<Registration>) -> (out: Vec<Registration>)
    ensures
        out@.to_multiset() == input@.to_multiset(),
        registrations_sorted_by_created_desc(out@),
{
    let ghost orig = input@;
    let mut rest = input;
    let mut out: Vec<Registration> = Vec::new();
    proof {
        assert(out@.to_multiset().add(rest@.to_multiset()) =~= orig.to_multiset());
    }
    while rest.len() > 0
        invariant
            out@.to_multiset().add(rest@.to_multiset()) == orig.to_multiset(),
            registrations_sorted_by_created_desc(out@),
            forall|x: int, y: int|
                0 <= x < out@.len() && 0 <= y < rest@.len() ==> out@[x].created_at >= rest@[y].created_at,
        decreases rest.len(),
    {
        let mut mi: usize = 0;
        let mut j: usize = 1;

        while j < rest.len()
            invariant
                0 < rest.len(),
                mi < j <= rest.len(),
                forall|t: int| 0 <= t < j ==> rest@[mi as int].created_at >= #[trigger] rest@[t].created_at,
            decreases rest.len() - j,
        {
            if rest[j].created_at > rest[mi].created_at {
                mi = j;
            }
            j = j + 1;
        }
        let ghost o0 = out@;
        let ghost r0 = rest@;
        proof {
            r0.to_multiset_ensures();
            o0.to_multiset_ensures();
            r0.remove_ensures(mi as int);
        }
        let e = rest.remove(mi);
        out.push(e);
        proof {
            assert(out@.to_multiset() =~= o0.to_multiset().insert(e));
            assert(rest@.to_multiset() =~= r0.to_multiset().remove(e));
            assert(out@.to_multiset().add(rest@.to_multiset()) =~= orig.to_multiset());
        }
    }
    proof {
        assert(out@.to_multiset().add(rest@.to_multiset()) =~= out@.to_multiset());
    }
    out
}

/// `s` is ordered by name, in lexicographic order.
pub open spec fn venues_sorted_by_name(s: Seq<Venue>) -> bool {
    forall|i: int, j: int| 0 <= i < j < s.len() ==> lex_leq(s[i].name@, s[j].name@)
}

/// Sorts by name, in lexicographic order, keeping exactly the given elements.
pub fn sort_venues_by_name(input: Vec<Venue>) -> (out: Vec<Venue>)
    ensures
        out@.to_multiset() == input@.to_multiset(),
        venues_sorted_by_name(out@),
{
    let ghost orig = input@;
    let mut rest = input;
    let mut out: Vec<Venue> = Vec::new();
    proof {
        assert(out@.to_multiset().add(rest@.to_multiset()) =~= orig.to_multiset());
    }
    while rest.len() > 0
        invariant
            out@.to_multiset().add(rest@.to_multiset()) == orig.to_multiset(),
            venues_sorted_by_name(out@),
            forall|x: int, y: int|
                0 <= x < out@.len() && 0 <= y < rest@.len() ==> lex_leq(out@[x].name@, rest@[y].name@),
        decreases rest.len(),
    {
        let mut mi: usize = 0;
        let mut j: usize = 1;
        proof {
            lemma_lex_total(rest@[0].name@, rest@[0].name@);
        }
        while j < rest.len()
            invariant
                0 < rest.len(),
                mi < j <= rest.len(),
                forall|t: int| 0 <= t < j ==> lex_leq(rest@[mi as int].name@, #[trigger] rest@[t].name@),
            decreases rest.len() - j,
        {
            if !str_lex_leq(rest[mi].name.as_str(), rest[j].name.as_str()) {
                proof {
                    lemma_lex_total(rest@[mi as int].name@, rest@[j as int].name@);
                    assert forall|t: int| 0 <= t < j + 1 implies lex_leq(
                        rest@[j as int].name@,
                        rest@[t].name@,
                    ) by {
                        if t < j {
                            lemma_lex_trans(
                                rest@[j as int].name@,
                                rest@[mi as int].name@,
                                rest@[t].name@,
                            );
                        } else {
                            lemma_lex_total(rest@[j as int].name@, rest@[j as int].name@);
                        }
                    }
                }
                mi = j;
            }
            j = j + 1;
        }
        let ghost o0 = out@;
        let ghost r0 = rest@;
        proof {
            r0.to_multiset_ensures();
            o0.to_multiset_ensures();
            r0.remove_ensures(mi as int);
        }
        let e = rest.remove(mi);
        out.push(e);
        proof {
            assert(out@.to_multiset() =~= o0.to_multiset().insert(e));
            assert(rest@.to_multiset() =~= r0.to_multiset().remove(e));
            assert(out@.to_multiset().add(rest@.to_multiset()) =~= orig.to_multiset());
        }
    }
    proof {
        assert(out@.to_multiset().add(rest@.to_multiset()) =~= out@.to_multiset());
    }
    out
}

} // verus!
