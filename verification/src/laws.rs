//! Laws of the persistence layer, stated over the store model.
//!
//! Each law here relates several operations and is proved from the spec
//! functions their contracts use: the check-then-create email uniqueness
//! pattern, idempotent seeding, the effect of each create on the per-kind
//! record counts, and the counts an import into a cleared store produces.

use vstd::prelude::*;
use crate::ident::lemma_parse_encoded_id;
use crate::keys::{
    has_prefix, user_key, event_key, package_key, venue_key, registration_key, email_key,
    user_prefix, event_prefix, package_prefix, venue_prefix, registration_prefix, email_prefix,
    lemma_key_prefixes, lemma_prefixes_exclusive, lemma_keys_injective,
};
use crate::codec::{lemma_user_round_trip, user_strs_fit};
use crate::database::{
    spec_create_user, spec_create_event, spec_email_lookup, count_prefix, spec_import_venues,
    spec_import_users, spec_import_packages, spec_import_events, spec_import_registrations,
    spec_import, spec_seed, events_present,
};
use crate::models::{UserView, Venue, User, Package, Event, Registration};
use crate::store::empty_store;

verus! {

/// Uniqueness under the check-then-create pattern: right after a user is
/// created, looking its email up finds exactly that user.  A caller that
/// checks the email before every create therefore keeps the first owner of
/// an email reachable: the second create is refused by the check, because
/// the lookup already answers with the first user.
pub proof fn lemma_create_then_email_lookup(m: Map<Seq<char>, Seq<u8>>, u: UserView)
    requires
        user_strs_fit(u),
    ensures
        spec_email_lookup(spec_create_user(m, u), u.email) == Some(u),
{
    let uk = user_key(u.id);
    let ek = email_key(u.email);
    lemma_key_prefixes(u.id, u.email);
    assert(uk != ek);
    let m2 = spec_create_user(m, u);
    assert(m2.contains_key(ek) && m2[ek] == vstd::utf8::encode_utf8(
        crate::ident::spec_id_chars(u.id),
    ));
    lemma_parse_encoded_id(u.id);
    assert(m2.contains_key(uk) && m2[uk] == crate::codec::spec_encode_user(u));
    lemma_user_round_trip(u);
}

/// Idempotent seeding: once a seeding pass has run on a store, a second
/// pass changes nothing, because the first pass either found events already
/// present and did nothing, or planted the bundle's events, which the second
/// pass then finds.  A bundle without any event would not plant the
/// sentinel, so the law asks for at least one.
pub proof fn lemma_seed_idempotent(
    m: Map<Seq<char>, Seq<u8>>,
    vs: Seq<Venue>,
    ps: Seq<Package>,
    es: Seq<Event>,
    vs2: Seq<Venue>,
    ps2: Seq<Package>,
    es2: Seq<Event>,
)
    requires
        es.len() > 0 || events_present(m),
    ensures
        spec_seed(spec_seed(m, vs, ps, es), vs2, ps2, es2) == spec_seed(m, vs, ps, es),
{
    let m1 = spec_seed(m, vs, ps, es);
    if events_present(m) {
        assert(m1 == m);
    } else {
        let base = spec_import_packages(spec_import_venues(m, vs), ps);
        let last = es.last();
        assert(m1 == spec_create_event(spec_import_events(base, es.drop_last()), last@));
        lemma_key_prefixes(last@.id, Seq::empty());
        assert(m1.contains_key(event_key(last@.id)) && has_prefix(
            event_key(last@.id),
            event_prefix(),
        ));
    }
    assert(events_present(m1));
}

/// Inserting one key changes one count: the count of a prefix the key
/// carries grows by one when the key is new, and every other count stays.
pub proof fn lemma_count_insert(
    m: Map<Seq<char>, Seq<u8>>,
    k: Seq<char>,
    v: Seq<u8>,
    p: Seq<char>,
)
    requires
        m.dom().finite(),
    ensures
        m.insert(k, v).dom().finite(),
        count_prefix(m.insert(k, v), p) == count_prefix(m, p) + (
        if !m.contains_key(k) && has_prefix(k, p) {
            1int
        } else {
            0int
        }),
{
    let d = m.dom();
    let d2 = m.insert(k, v).dom();
    let f = |k: Seq<char>| has_prefix(k, p);
    assert(d2 =~= d.insert(k));
    d.lemma_len_filter(f);
    if m.contains_key(k) {
        assert(d.insert(k) =~= d);
    } else if has_prefix(k, p) {
        assert(d.insert(k).filter(f) =~= d.filter(f).insert(k));
        assert(!d.filter(f).contains(k));
        vstd::set::axiom_set_insert_len(d.filter(f), k);
    } else {
        assert(d.insert(k).filter(f) =~= d.filter(f));
    }
}

/// Creating a user raises the user count by one (when the identifier is
/// new) and leaves the counts of every other kind unchanged; the email
/// index entry carries no kind prefix and counts nowhere.
pub proof fn lemma_create_user_counts(m: Map<Seq<char>, Seq<u8>>, u: UserView)
    requires
        m.dom().finite(),
        !m.contains_key(user_key(u.id)),
    ensures
        spec_create_user(m, u).dom().finite(),
        count_prefix(spec_create_user(m, u), user_prefix()) == count_prefix(m, user_prefix())
            + 1,
        count_prefix(spec_create_user(m, u), event_prefix()) == count_prefix(m, event_prefix()),
        count_prefix(spec_create_user(m, u), venue_prefix()) == count_prefix(m, venue_prefix()),
        count_prefix(spec_create_user(m, u), package_prefix()) == count_prefix(
            m,
            package_prefix(),
        ),
        count_prefix(spec_create_user(m, u), registration_prefix()) == count_prefix(
            m,
            registration_prefix(),
        ),
{
    let uk = user_key(u.id);
    let ek = email_key(u.email);
    let m1 = m.insert(uk, crate::codec::spec_encode_user(u));
    lemma_key_prefixes(u.id, u.email);
    lemma_prefixes_exclusive(uk);
    lemma_prefixes_exclusive(ek);
    lemma_count_insert(m, uk, crate::codec::spec_encode_user(u), user_prefix());
    lemma_count_insert(m, uk, crate::codec::spec_encode_user(u), event_prefix());
    lemma_count_insert(m, uk, crate::codec::spec_encode_user(u), venue_prefix());
    lemma_count_insert(m, uk, crate::codec::spec_encode_user(u), package_prefix());
    lemma_count_insert(m, uk, crate::codec::spec_encode_user(u), registration_prefix());
    let idb = vstd::utf8::encode_utf8(crate::ident::spec_id_chars(u.id));
    lemma_count_insert(m1, ek, idb, user_prefix());
    lemma_count_insert(m1, ek, idb, event_prefix());
    lemma_count_insert(m1, ek, idb, venue_prefix());
    lemma_count_insert(m1, ek, idb, package_prefix());
    lemma_count_insert(m1, ek, idb, registration_prefix());
}

/// Creating an event raises the event count by one (when the identifier is
/// new) and leaves every other count unchanged.
pub proof fn lemma_create_event_counts(m: Map<Seq<char>, Seq<u8>>, e: crate::models::EventView)
    requires
        m.dom().finite(),
        !m.contains_key(event_key(e.id)),
    ensures
        spec_create_event(m, e).dom().finite(),
        count_prefix(spec_create_event(m, e), event_prefix()) == count_prefix(m, event_prefix())
            + 1,
        count_prefix(spec_create_event(m, e), user_prefix()) == count_prefix(m, user_prefix()),
        count_prefix(spec_create_event(m, e), venue_prefix()) == count_prefix(m, venue_prefix()),
        count_prefix(spec_create_event(m, e), package_prefix()) == count_prefix(
            m,
            package_prefix(),
        ),
        count_prefix(spec_create_event(m, e), registration_prefix()) == count_prefix(
            m,
            registration_prefix(),
        ),
{
    let k = event_key(e.id);
    lemma_key_prefixes(e.id, Seq::empty());
    lemma_prefixes_exclusive(k);
    lemma_count_insert(m, k, crate::codec::spec_encode_event(e), user_prefix());
    lemma_count_insert(m, k, crate::codec::spec_encode_event(e), event_prefix());
    lemma_count_insert(m, k, crate::codec::spec_encode_event(e), venue_prefix());
    lemma_count_insert(m, k, crate::codec::spec_encode_event(e), package_prefix());
    lemma_count_insert(m, k, crate::codec::spec_encode_event(e), registration_prefix());
}


/// Some entry of the list carries this identifier.
pub open spec fn has_id_venue(items: Seq<Venue>, id: u128) -> bool {
    exists|x: int| #![auto] 0 <= x < items.len() && items[x].id == id
}

/// Replaying venue creates raises the venue count by the number of fresh,
/// distinct identifiers and leaves every other count unchanged.
pub proof fn lemma_import_venues_counts(m: Map<Seq<char>, Seq<u8>>, items: Seq<Venue>)
    requires
        m.dom().finite(),
        forall|x: int, y: int| 0 <= x < y < items.len() ==> items[x].id != items[y].id,
        forall|x: int|
            0 <= x < items.len() ==> !m.contains_key(venue_key((#[trigger] items[x]).id)),
    ensures
        spec_import_venues(m, items).dom().finite(),
        count_prefix(spec_import_venues(m, items), venue_prefix()) == count_prefix(m, venue_prefix())
            + items.len(),
        count_prefix(spec_import_venues(m, items), user_prefix()) == count_prefix(m, user_prefix()),
        count_prefix(spec_import_venues(m, items), event_prefix()) == count_prefix(m, event_prefix()),
        count_prefix(spec_import_venues(m, items), package_prefix()) == count_prefix(m, package_prefix()),
        count_prefix(spec_import_venues(m, items), registration_prefix()) == count_prefix(m, registration_prefix()),
        forall|k: Seq<char>|
            !has_prefix(k, venue_prefix()) ==> (#[trigger] spec_import_venues(m, items).contains_key(k))
                == m.contains_key(k),
        forall|id: u128| #[trigger] spec_import_venues(m, items).contains_key(venue_key(id)) == (
        m.contains_key(venue_key(id)) || has_id_venue(items, id)),
    decreases items.len(),
{
    if items.len() == 0 {
        assert(forall|id: u128| !has_id_venue(items, id));
    } else {
        let pre = items.drop_last();
        let e = items.last();
        assert(forall|x: int| 0 <= x < pre.len() ==> pre[x] == items[x]);
        lemma_import_venues_counts(m, pre);
        let m1 = spec_import_venues(m, pre);
        let k = venue_key(e@.id);
        let v = crate::codec::spec_encode_venue(e@);
        lemma_key_prefixes(e@.id, Seq::empty());
        lemma_prefixes_exclusive(k);
        assert(!has_id_venue(pre, e@.id));
        assert(!m1.contains_key(k));
        lemma_count_insert(m1, k, v, user_prefix());
        lemma_count_insert(m1, k, v, event_prefix());
        lemma_count_insert(m1, k, v, venue_prefix());
        lemma_count_insert(m1, k, v, package_prefix());
        lemma_count_insert(m1, k, v, registration_prefix());
        assert(spec_import_venues(m, items) == m1.insert(k, v));
        assert forall|id: u128| #[trigger] spec_import_venues(m, items).contains_key(venue_key(id)) == (
        m.contains_key(venue_key(id)) || has_id_venue(items, id)) by {
            lemma_keys_injective(id, e@.id, Seq::empty(), Seq::empty());
            if has_id_venue(items, id) {
                let x = choose|x: int| #![auto] 0 <= x < items.len() && items[x].id == id;
                if x < items.len() - 1 {
                    assert(has_id_venue(pre, id));
                }
            }
            if has_id_venue(pre, id) {
                let x = choose|x: int| #![auto] 0 <= x < pre.len() && pre[x].id == id;
                assert(items[x].id == id);
            }
            if id == e@.id {
                assert(items[items.len() - 1].id == id);
            }
        }
    }
}

/// Some entry of the list carries this identifier.
pub open spec fn has_id_package(items: Seq<Package>, id: u128) -> bool {
    exists|x: int| #![auto] 0 <= x < items.len() && items[x].id == id
}

/// Replaying package creates raises the package count by the number of fresh,
/// distinct identifiers and leaves every other count unchanged.
pub proof fn lemma_import_packages_counts(m: Map<Seq<char>, Seq<u8>>, items: Seq<Package>)
    requires
        m.dom().finite(),
        forall|x: int, y: int| 0 <= x < y < items.len() ==> items[x].id != items[y].id,
        forall|x: int|
            0 <= x < items.len() ==> !m.contains_key(package_key((#[trigger] items[x]).id)),
    ensures
        spec_import_packages(m, items).dom().finite(),
        count_prefix(spec_import_packages(m, items), package_prefix()) == count_prefix(m, package_prefix())
            + items.len(),
        count_prefix(spec_import_packages(m, items), user_prefix()) == count_prefix(m, user_prefix()),
        count_prefix(spec_import_packages(m, items), event_prefix()) == count_prefix(m, event_prefix()),
        count_prefix(spec_import_packages(m, items), venue_prefix()) == count_prefix(m, venue_prefix()),
        count_prefix(spec_import_packages(m, items), registration_prefix()) == count_prefix(m, registration_prefix()),
        forall|k: Seq<char>|
            !has_prefix(k, package_prefix()) ==> (#[trigger] spec_import_packages(m, items).contains_key(k))
                == m.contains_key(k),
        forall|id: u128| #[trigger] spec_import_packages(m, items).contains_key(package_key(id)) == (
        m.contains_key(package_key(id)) || has_id_package(items, id)),
    decreases items.len(),
{
    if items.len() == 0 {
        assert(forall|id: u128| !has_id_package(items, id));
    } else {
        let pre = items.drop_last();
        let e = items.last();
        assert(forall|x: int| 0 <= x < pre.len() ==> pre[x] == items[x]);
        lemma_import_packages_counts(m, pre);
        let m1 = spec_import_packages(m, pre);
        let k = package_key(e@.id);
        let v = crate::codec::spec_encode_package(e@);
        lemma_key_prefixes(e@.id, Seq::empty());
        lemma_prefixes_exclusive(k);
        assert(!has_id_package(pre, e@.id));
        assert(!m1.contains_key(k));
        lemma_count_insert(m1, k, v, user_prefix());
        lemma_count_insert(m1, k, v, event_prefix());
        lemma_count_insert(m1, k, v, venue_prefix());
        lemma_count_insert(m1, k, v, package_prefix());
        lemma_count_insert(m1, k, v, registration_prefix());
        assert(spec_import_packages(m, items) == m1.insert(k, v));
        assert forall|id: u128| #[trigger] spec_import_packages(m, items).contains_key(package_key(id)) == (
        m.contains_key(package_key(id)) || has_id_package(items, id)) by {
            lemma_keys_injective(id, e@.id, Seq::empty(), Seq::empty());
            if has_id_package(items, id) {
                let x = choose|x: int| #![auto] 0 <= x < items.len() && items[x].id == id;
                if x < items.len() - 1 {
                    assert(has_id_package(pre, id));
                }
            }
            if has_id_package(pre, id) {
                let x = choose|x: int| #![auto] 0 <= x < pre.len() && pre[x].id == id;
                assert(items[x].id == id);
            }
            if id == e@.id {
                assert(items[items.len() - 1].id == id);
            }
        }
    }
}

/// Some entry of the list carries this identifier.
pub open spec fn has_id_event(items: Seq<Event>, id: u128) -> bool {
    exists|x: int| #![auto] 0 <= x < items.len() && items[x].id == id
}

/// Replaying event creates raises the event count by the number of fresh,
/// distinct identifiers and leaves every other count unchanged.
pub proof fn lemma_import_events_counts(m: Map<Seq<char>, Seq<u8>>, items: Seq<Event>)
    requires
        m.dom().finite(),
        forall|x: int, y: int| 0 <= x < y < items.len() ==> items[x].id != items[y].id,
        forall|x: int|
            0 <= x < items.len() ==> !m.contains_key(event_key((#[trigger] items[x]).id)),
    ensures
        spec_import_events(m, items).dom().finite(),
        count_prefix(spec_import_events(m, items), event_prefix()) == count_prefix(m, event_prefix())
            + items.len(),
        count_prefix(spec_import_events(m, items), user_prefix()) == count_prefix(m, user_prefix()),
        count_prefix(spec_import_events(m, items), venue_prefix()) == count_prefix(m, venue_prefix()),
        count_prefix(spec_import_events(m, items), package_prefix()) == count_prefix(m, package_prefix()),
        count_prefix(spec_import_events(m, items), registration_prefix()) == count_prefix(m, registration_prefix()),
        forall|k: Seq<char>|
            !has_prefix(k, event_prefix()) ==> (#[trigger] spec_import_events(m, items).contains_key(k))
                == m.contains_key(k),
        forall|id: u128| #[trigger] spec_import_events(m, items).contains_key(event_key(id)) == (
        m.contains_key(event_key(id)) || has_id_event(items, id)),
    decreases items.len(),
{
    if items.len() == 0 {
        assert(forall|id: u128| !has_id_event(items, id));
    } else {
        let pre = items.drop_last();
        let e = items.last();
        assert(forall|x: int| 0 <= x < pre.len() ==> pre[x] == items[x]);
        lemma_import_events_counts(m, pre);
        let m1 = spec_import_events(m, pre);
        let k = event_key(e@.id);
        let v = crate::codec::spec_encode_event(e@);
        lemma_key_prefixes(e@.id, Seq::empty());
        lemma_prefixes_exclusive(k);
        assert(!has_id_event(pre, e@.id));
        assert(!m1.contains_key(k));
        lemma_count_insert(m1, k, v, user_prefix());
        lemma_count_insert(m1, k, v, event_prefix());
        lemma_count_insert(m1, k, v, venue_prefix());
        lemma_count_insert(m1, k, v, package_prefix());
        lemma_count_insert(m1, k, v, registration_prefix());
        assert(spec_import_events(m, items) == m1.insert(k, v));
        assert forall|id: u128| #[trigger] spec_import_events(m, items).contains_key(event_key(id)) == (
        m.contains_key(event_key(id)) || has_id_event(items, id)) by {
            lemma_keys_injective(id, e@.id, Seq::empty(), Seq::empty());
            if has_id_event(items, id) {
                let x = choose|x: int| #![auto] 0 <= x < items.len() && items[x].id == id;
                if x < items.len() - 1 {
                    assert(has_id_event(pre, id));
                }
            }
            if has_id_event(pre, id) {
                let x = choose|x: int| #![auto] 0 <= x < pre.len() && pre[x].id == id;
                assert(items[x].id == id);
            }
            if id == e@.id {
                assert(items[items.len() - 1].id == id);
            }
        }
    }
}

/// Some entry of the list carries this identifier.
pub open spec fn has_id_registration(items: Seq<Registration>, id: u128) -> bool {
    exists|x: int| #![auto] 0 <= x < items.len() && items[x].id == id
}

/// Replaying registration creates raises the registration count by the number of fresh,
/// distinct identifiers and leaves every other count unchanged.
pub proof fn lemma_import_registrations_counts(m: Map<Seq<char>, Seq<u8>>, items: Seq<Registration>)
    requires
        m.dom().finite(),
        forall|x: int, y: int| 0 <= x < y < items.len() ==> items[x].id != items[y].id,
        forall|x: int|
            0 <= x < items.len() ==> !m.contains_key(registration_key((#[trigger] items[x]).id)),
    ensures
        spec_import_registrations(m, items).dom().finite(),
        count_prefix(spec_import_registrations(m, items), registration_prefix()) == count_prefix(m, registration_prefix())
            + items.len(),
        count_prefix(spec_import_registrations(m, items), user_prefix()) == count_prefix(m, user_prefix()),
        count_prefix(spec_import_registrations(m, items), event_prefix()) == count_prefix(m, event_prefix()),
        count_prefix(spec_import_registrations(m, items), venue_prefix()) == count_prefix(m, venue_prefix()),
        count_prefix(spec_import_registrations(m, items), package_prefix()) == count_prefix(m, package_prefix()),
        forall|k: Seq<char>|
            !has_prefix(k, registration_prefix()) ==> (#[trigger] spec_import_registrations(m, items).contains_key(k))
                == m.contains_key(k),
        forall|id: u128| #[trigger] spec_import_registrations(m, items).contains_key(registration_key(id)) == (
        m.contains_key(registration_key(id)) || has_id_registration(items, id)),
    decreases items.len(),
{
    if items.len() == 0 {
        assert(forall|id: u128| !has_id_registration(items, id));
    } else {
        let pre = items.drop_last();
        let e = items.last();
        assert(forall|x: int| 0 <= x < pre.len() ==> pre[x] == items[x]);
        lemma_import_registrations_counts(m, pre);
        let m1 = spec_import_registrations(m, pre);
        let k = registration_key(e@.id);
        let v = crate::codec::spec_encode_registration(e@);
        lemma_key_prefixes(e@.id, Seq::empty());
        lemma_prefixes_exclusive(k);
        assert(!has_id_registration(pre, e@.id));
        assert(!m1.contains_key(k));
        lemma_count_insert(m1, k, v, user_prefix());
        lemma_count_insert(m1, k, v, event_prefix());
        lemma_count_insert(m1, k, v, venue_prefix());
        lemma_count_insert(m1, k, v, package_prefix());
        lemma_count_insert(m1, k, v, registration_prefix());
        assert(spec_import_registrations(m, items) == m1.insert(k, v));
        assert forall|id: u128| #[trigger] spec_import_registrations(m, items).contains_key(registration_key(id)) == (
        m.contains_key(registration_key(id)) || has_id_registration(items, id)) by {
            lemma_keys_injective(id, e@.id, Seq::empty(), Seq::empty());
            if has_id_registration(items, id) {
                let x = choose|x: int| #![auto] 0 <= x < items.len() && items[x].id == id;
                if x < items.len() - 1 {
                    assert(has_id_registration(pre, id));
                }
            }
            if has_id_registration(pre, id) {
                let x = choose|x: int| #![auto] 0 <= x < pre.len() && pre[x].id == id;
                assert(items[x].id == id);
            }
            if id == e@.id {
                assert(items[items.len() - 1].id == id);
            }
        }
    }
}

/// Some entry of the list carries this identifier.
pub open spec fn has_id_user(items: Seq<User>, id: u128) -> bool {
    exists|x: int| #![auto] 0 <= x < items.len() && items[x].id == id
}

/// Replaying user creates raises the user count by the number of fresh,
/// distinct identifiers and leaves every other count unchanged; the email
/// index entries carry no kind prefix and count nowhere.
pub proof fn lemma_import_users_counts(m: Map<Seq<char>, Seq<u8>>, items: Seq<User>)
    requires
        m.dom().finite(),
        forall|x: int, y: int| 0 <= x < y < items.len() ==> items[x].id != items[y].id,
        forall|x: int|
            0 <= x < items.len() ==> !m.contains_key(user_key((#[trigger] items[x]).id)),
    ensures
        spec_import_users(m, items).dom().finite(),
        count_prefix(spec_import_users(m, items), user_prefix()) == count_prefix(
            m,
            user_prefix(),
        ) + items.len(),
        count_prefix(spec_import_users(m, items), event_prefix()) == count_prefix(
            m,
            event_prefix(),
        ),
        count_prefix(spec_import_users(m, items), venue_prefix()) == count_prefix(
            m,
            venue_prefix(),
        ),
        count_prefix(spec_import_users(m, items), package_prefix()) == count_prefix(
            m,
            package_prefix(),
        ),
        count_prefix(spec_import_users(m, items), registration_prefix()) == count_prefix(
            m,
            registration_prefix(),
        ),
        forall|k: Seq<char>|
            !has_prefix(k, user_prefix()) && !has_prefix(k, email_prefix()) ==> (
            #[trigger] spec_import_users(m, items).contains_key(k)) == m.contains_key(k),
        forall|id: u128| #[trigger] spec_import_users(m, items).contains_key(user_key(id)) == (
        m.contains_key(user_key(id)) || has_id_user(items, id)),
    decreases items.len(),
{
    if items.len() == 0 {
        assert(forall|id: u128| !has_id_user(items, id));
    } else {
        let pre = items.drop_last();
        let e = items.last();
        assert(forall|x: int| 0 <= x < pre.len() ==> pre[x] == items[x]);
        lemma_import_users_counts(m, pre);
        let m1 = spec_import_users(m, pre);
        let uk = user_key(e@.id);
        let uv = crate::codec::spec_encode_user(e@);
        let ek = email_key(e@.email);
        let ev = vstd::utf8::encode_utf8(crate::ident::spec_id_chars(e@.id));
        lemma_key_prefixes(e@.id, e@.email);
        lemma_prefixes_exclusive(uk);
        lemma_prefixes_exclusive(ek);
        assert(!has_id_user(pre, e@.id));
        assert(!m1.contains_key(uk));
        let m2 = m1.insert(uk, uv);
        lemma_count_insert(m1, uk, uv, user_prefix());
        lemma_count_insert(m1, uk, uv, event_prefix());
        lemma_count_insert(m1, uk, uv, venue_prefix());
        lemma_count_insert(m1, uk, uv, package_prefix());
        lemma_count_insert(m1, uk, uv, registration_prefix());
        lemma_count_insert(m2, ek, ev, user_prefix());
        lemma_count_insert(m2, ek, ev, event_prefix());
        lemma_count_insert(m2, ek, ev, venue_prefix());
        lemma_count_insert(m2, ek, ev, package_prefix());
        lemma_count_insert(m2, ek, ev, registration_prefix());
        assert(spec_import_users(m, items) == m2.insert(ek, ev));
        assert forall|id: u128| #[trigger] spec_import_users(m, items).contains_key(user_key(id))
            == (m.contains_key(user_key(id)) || has_id_user(items, id)) by {
            lemma_keys_injective(id, e@.id, Seq::empty(), Seq::empty());
            lemma_key_prefixes(id, e@.email);
            assert(user_key(id) != ek);
            if has_id_user(items, id) {
                let x = choose|x: int| #![auto] 0 <= x < items.len() && items[x].id == id;
                if x < items.len() - 1 {
                    assert(has_id_user(pre, id));
                }
            }
            if has_id_user(pre, id) {
                let x = choose|x: int| #![auto] 0 <= x < pre.len() && pre[x].id == id;
                assert(items[x].id == id);
            }
            if id == e@.id {
                assert(items[items.len() - 1].id == id);
            }
        }
    }
}

/// Import into a cleared store reproduces the counts: replaying lists with
/// distinct identifiers per kind into an empty store yields exactly one
/// record per list entry, kind by kind.  Together with the export contract,
/// which lists every stored record of each kind exactly once, this is the
/// export/import round trip on record counts.
pub proof fn lemma_import_into_empty_counts(
    vs: Seq<Venue>,
    us: Seq<User>,
    ps: Seq<Package>,
    es: Seq<Event>,
    gs: Seq<Registration>,
)
    requires
        forall|x: int, y: int| 0 <= x < y < vs.len() ==> vs[x].id != vs[y].id,
        forall|x: int, y: int| 0 <= x < y < us.len() ==> us[x].id != us[y].id,
        forall|x: int, y: int| 0 <= x < y < ps.len() ==> ps[x].id != ps[y].id,
        forall|x: int, y: int| 0 <= x < y < es.len() ==> es[x].id != es[y].id,
        forall|x: int, y: int| 0 <= x < y < gs.len() ==> gs[x].id != gs[y].id,
    ensures
        count_prefix(spec_import(empty_store(), vs, us, ps, es, gs), venue_prefix()) == vs.len(),
        count_prefix(spec_import(empty_store(), vs, us, ps, es, gs), user_prefix()) == us.len(),
        count_prefix(spec_import(empty_store(), vs, us, ps, es, gs), package_prefix())
            == ps.len(),
        count_prefix(spec_import(empty_store(), vs, us, ps, es, gs), event_prefix()) == es.len(),
        count_prefix(spec_import(empty_store(), vs, us, ps, es, gs), registration_prefix())
            == gs.len(),
{
    let m0 = empty_store();
    assert(m0.dom() =~= Set::<Seq<char>>::empty());
    assert(m0.dom().filter(|k: Seq<char>| has_prefix(k, user_prefix())) =~= Set::empty());
    assert(m0.dom().filter(|k: Seq<char>| has_prefix(k, event_prefix())) =~= Set::empty());
    assert(m0.dom().filter(|k: Seq<char>| has_prefix(k, venue_prefix())) =~= Set::empty());
    assert(m0.dom().filter(|k: Seq<char>| has_prefix(k, package_prefix())) =~= Set::empty());
    assert(m0.dom().filter(|k: Seq<char>| has_prefix(k, registration_prefix()))
        =~= Set::empty());
    lemma_import_venues_counts(m0, vs);
    let m1 = spec_import_venues(m0, vs);
    assert forall|x: int| 0 <= x < us.len() implies !m1.contains_key(
        user_key((#[trigger] us[x]).id),
    ) by {
        lemma_key_prefixes(us[x].id, Seq::empty());
        lemma_prefixes_exclusive(user_key(us[x].id));
    }
    lemma_import_users_counts(m1, us);
    let m2 = spec_import_users(m1, us);
    assert forall|x: int| 0 <= x < ps.len() implies !m2.contains_key(
        package_key((#[trigger] ps[x]).id),
    ) by {
        lemma_key_prefixes(ps[x].id, Seq::empty());
        lemma_prefixes_exclusive(package_key(ps[x].id));
    }
    lemma_import_packages_counts(m2, ps);
    let m3 = spec_import_packages(m2, ps);
    assert forall|x: int| 0 <= x < es.len() implies !m3.contains_key(
        event_key((#[trigger] es[x]).id),
    ) by {
        lemma_key_prefixes(es[x].id, Seq::empty());
        lemma_prefixes_exclusive(event_key(es[x].id));
    }
    lemma_import_events_counts(m3, es);
    let m4 = spec_import_events(m3, es);
    assert forall|x: int| 0 <= x < gs.len() implies !m4.contains_key(
        registration_key((#[trigger] gs[x]).id),
    ) by {
        lemma_key_prefixes(gs[x].id, Seq::empty());
        lemma_prefixes_exclusive(registration_key(gs[x].id));
    }
    lemma_import_registrations_counts(m4, gs);
}

} // verus!
