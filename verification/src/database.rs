//! Per-kind repositories over the store engine.
//!
//! Every operation is specified against the store model: a create is a map
//! insert of the encoded entity under its primary key (plus the email index
//! entry for users), a lookup decodes the bytes under the key, and a listing
//! returns exactly the decoded records of its kind prefix in the kind's
//! order.  The store guarantees only single-key atomicity, so an operation
//! that fails midway may leave a partial write (for users: a primary record
//! without its index entry); a failed operation promises nothing about the
//! resulting contents.

use vstd::prelude::*;
use vstd::utf8::encode_utf8;
use crate::ident::{spec_id_chars, spec_parse_id, format_id, parse_id};
use crate::keys::{
    has_prefix, user_key, event_key, package_key, venue_key, registration_key, email_key,
    make_user_key, make_event_key, make_package_key, make_venue_key, make_registration_key,
    make_email_key, user_prefix, event_prefix, package_prefix, venue_prefix, registration_prefix,
    user_prefix_str, event_prefix_str, package_prefix_str, venue_prefix_str,
    registration_prefix_str,
};
use crate::codec::{
    spec_encode_user, spec_decode_user, encode_user, decode_user, spec_encode_event,
    spec_decode_event, encode_event, decode_event, spec_encode_package, spec_decode_package,
    encode_package, decode_package, spec_encode_venue, spec_decode_venue, encode_venue,
    decode_venue, spec_encode_registration, spec_decode_registration, encode_registration,
    decode_registration,
};
use crate::models::{User, Event, Package, Venue, Registration, UserView, EventView, DatabaseExport, DataStatistics};
use crate::sort::{
    sort_events_by_start, sort_packages_by_price, sort_users_by_created,
    sort_registrations_by_created_desc, sort_venues_by_name, events_sorted_by_start,
    packages_sorted_by_price, users_sorted_by_created, registrations_sorted_by_created_desc,
    venues_sorted_by_name,
};
use crate::store::{StoreEngine, DbError};

verus! {

broadcast use vstd::seq_lib::group_to_multiset_ensures, vstd::seq_lib::group_filter_ensures;

/// The persistence layer: one handle to the store with typed operations.
pub struct Database {
    store: StoreEngine,
}

impl View for Database {
    type V = Map<Seq<char>, Seq<u8>>;

    closed spec fn view(&self) -> Map<Seq<char>, Seq<u8>> {
        self.store@
    }
}

// ---------------------------------------------------------------------------
// Spec-level model of each write operation.
// ---------------------------------------------------------------------------

/// Creating a user writes its record and then its email index entry.
pub open spec fn spec_create_user(m: Map<Seq<char>, Seq<u8>>, u: UserView) -> Map<
    Seq<char>,
    Seq<u8>,
> {
    m.insert(user_key(u.id), spec_encode_user(u)).insert(
        email_key(u.email),
        encode_utf8(spec_id_chars(u.id)),
    )
}

/// Creating an event writes its record under its primary key.
pub open spec fn spec_create_event(m: Map<Seq<char>, Seq<u8>>, e: EventView) -> Map<
    Seq<char>,
    Seq<u8>,
> {
    m.insert(event_key(e.id), spec_encode_event(e))
}

/// Creating a package writes its record under its primary key.
pub open spec fn spec_create_package(
    m: Map<Seq<char>, Seq<u8>>,
    p: crate::models::PackageView,
) -> Map<Seq<char>, Seq<u8>> {
    m.insert(package_key(p.id), spec_encode_package(p))
}

/// Creating a venue writes its record under its primary key.
pub open spec fn spec_create_venue(m: Map<Seq<char>, Seq<u8>>, v: crate::models::VenueView) -> Map<
    Seq<char>,
    Seq<u8>,
> {
    m.insert(venue_key(v.id), spec_encode_venue(v))
}

/// Creating a registration writes its record under its primary key.
pub open spec fn spec_create_registration(
    m: Map<Seq<char>, Seq<u8>>,
    g: crate::models::RegistrationView,
) -> Map<Seq<char>, Seq<u8>> {
    m.insert(registration_key(g.id), spec_encode_registration(g))
}

/// One more participant, capped at the field's width so that the update
/// cannot overflow; the cap plays no role at realistic counts.
pub open spec fn spec_bump_event(e: EventView) -> EventView {
    EventView {
        current_participants: if e.current_participants == u32::MAX {
            u32::MAX
        } else {
            (e.current_participants + 1) as u32
        },
        ..e
    }
}

/// Incrementing rewrites the event with one more participant; a missing
/// event changes nothing.
pub open spec fn spec_increment_event(m: Map<Seq<char>, Seq<u8>>, id: u128) -> Map<
    Seq<char>,
    Seq<u8>,
> {
    if m.contains_key(event_key(id)) {
        match spec_decode_event(m[event_key(id)]) {
            Some(e) => m.insert(event_key(e.id), spec_encode_event(spec_bump_event(e))),
            None => m,
        }
    } else {
        m
    }
}

/// What the two-step email lookup finds: the index entry names an
/// identifier, whose record is then decoded.
pub open spec fn spec_email_lookup(m: Map<Seq<char>, Seq<u8>>, email: Seq<char>) -> Option<
    UserView,
> {
    if m.contains_key(email_key(email)) {
        match spec_parse_id(m[email_key(email)]) {
            Some(id) => if m.contains_key(user_key(id)) {
                spec_decode_user(m[user_key(id)])
            } else {
                None
            },
            None => None,
        }
    } else {
        None
    }
}

// ---------------------------------------------------------------------------
// Counting and listing, at the spec level.
// ---------------------------------------------------------------------------

/// How many keys of the store carry the given kind prefix.
pub open spec fn count_prefix(m: Map<Seq<char>, Seq<u8>>, p: Seq<char>) -> nat {
    m.dom().filter(|k: Seq<char>| has_prefix(k, p)).len()
}

/// The record under `k` is a registration that belongs to `uid`.
pub open spec fn matching_registration_key(
    m: Map<Seq<char>, Seq<u8>>,
    uid: u128,
    k: Seq<char>,
) -> bool {
    has_prefix(k, registration_prefix()) && (spec_decode_registration(m[k]) matches Some(g)
        && g.user_id == uid)
}

/// How many stored registration records belong to `uid`.
pub open spec fn count_user_registrations(m: Map<Seq<char>, Seq<u8>>, uid: u128) -> nat {
    m.dom().filter(|k: Seq<char>| matching_registration_key(m, uid, k)).len()
}

/// A sequence of distinct keys that are exactly the prefixed keys of the
/// store has as many elements as the store has such keys.
pub proof fn lemma_scan_count(m: Map<Seq<char>, Seq<u8>>, p: Seq<char>, keys: Seq<Seq<char>>)
    requires
        forall|x: int|
            0 <= x < keys.len() ==> m.contains_key(#[trigger] keys[x]) && has_prefix(keys[x], p),
        forall|k: Seq<char>| #[trigger] m.contains_key(k) && has_prefix(k, p) ==> keys.contains(k),
        forall|x: int, y: int| 0 <= x < y < keys.len() ==> keys[x] != keys[y],
    ensures
        keys.len() == count_prefix(m, p),
        m.dom().filter(|k: Seq<char>| has_prefix(k, p)).finite(),
{
    let s = m.dom().filter(|k: Seq<char>| has_prefix(k, p));
    assert(keys.to_set() =~= s) by {
        assert forall|k: Seq<char>| keys.to_set().contains(k) implies s.contains(k) by {
            let x = choose|x: int| 0 <= x < keys.len() && keys[x] == k;
            assert(m.contains_key(keys[x]));
        }
        assert forall|k: Seq<char>| s.contains(k) implies keys.to_set().contains(k) by {
            assert(m.contains_key(k) && has_prefix(k, p));
        }
    }
    assert(keys.no_duplicates());
    keys.unique_seq_to_set();
}

/// One step of filtering, unrolled from the back.
proof fn lemma_filter_push<A>(s: Seq<A>, a: A, pred: spec_fn(A) -> bool)
    ensures
        s.push(a).filter(pred) == (if pred(a) {
            s.filter(pred).push(a)
        } else {
            s.filter(pred)
        }),
{
    reveal(Seq::filter);
    assert(s.push(a).drop_last() =~= s);
    assert(s.push(a).last() == a);
}

/// A filter of a duplicate-free sequence is duplicate-free, and every one
/// of its elements comes from the sequence.
proof fn lemma_filter_distinct<A>(s: Seq<A>, pred: spec_fn(A) -> bool)
    requires
        s.no_duplicates(),
    ensures
        s.filter(pred).no_duplicates(),
        forall|x: A| #[trigger] s.filter(pred).contains(x) ==> s.contains(x),
    decreases s.len(),
{
    reveal(Seq::filter);
    if s.len() > 0 {
        let pre = s.drop_last();
        assert(pre.no_duplicates());
        lemma_filter_distinct(pre, pred);
        let f = pre.filter(pred);
        if pred(s.last()) {
            assert(!pre.contains(s.last())) by {
                if pre.contains(s.last()) {
                    let i = choose|i: int| 0 <= i < pre.len() && pre[i] == s.last();
                    assert(s[i] == s[s.len() - 1]);
                }
            }
            assert(!f.contains(s.last()));
            assert(f.push(s.last()).no_duplicates()) by {
                assert forall|i: int, j: int|
                    0 <= i < f.push(s.last()).len() && 0 <= j < f.push(s.last()).len() && i
                        != j implies f.push(s.last())[i] != f.push(s.last())[j] by {
                    if i < f.len() && j == f.len() {
                        assert(f.contains(f[i]));
                    }
                    if j < f.len() && i == f.len() {
                        assert(f.contains(f[j]));
                    }
                }
            }
        }
        assert forall|x: A| #[trigger] s.filter(pred).contains(x) implies s.contains(x) by {
            let i = choose|i: int| 0 <= i < s.filter(pred).len() && s.filter(pred)[i] == x;
            if pred(s.last()) && i == f.len() {
                assert(s[s.len() - 1] == x);
            } else {
                assert(f[i] == x);
                assert(f.contains(x));
                assert(pre.contains(x));
                let j = choose|j: int| 0 <= j < pre.len() && pre[j] == x;
                assert(s[j] == x);
            }
        }
    }
}

/// Some stored record of the kind decodes to `e`.
pub open spec fn stored_event(m: Map<Seq<char>, Seq<u8>>, e: EventView) -> bool {
    exists|k: Seq<char>|
        #![auto]
        m.contains_key(k) && has_prefix(k, event_prefix()) && spec_decode_event(m[k]) == Some(e)
}

/// Some entry of the listing is the value `e`.
pub open spec fn listed_event(items: Seq<Event>, e: EventView) -> bool {
    exists|x: int| #![auto] 0 <= x < items.len() && items[x]@ == e
}

/// `items` lists exactly the stored events: as many entries as event keys,
/// every entry decoded from some stored record, every stored record decoded
/// into some entry, ordered by start time ascending.
pub open spec fn is_event_listing(m: Map<Seq<char>, Seq<u8>>, items: Seq<Event>) -> bool {
    &&& items.len() == count_prefix(m, event_prefix())
    &&& forall|x: int| 0 <= x < items.len() ==> stored_event(m, (#[trigger] items[x])@)
    &&& forall|k: Seq<char>|
        #[trigger] m.contains_key(k) && has_prefix(k, event_prefix()) ==> (spec_decode_event(m[k]) matches Some(
            e,
        ) && listed_event(items, e))
    &&& events_sorted_by_start(items)
}

/// Some stored record of the kind decodes to `e`.
pub open spec fn stored_package(m: Map<Seq<char>, Seq<u8>>, e: crate::models::PackageView) -> bool {
    exists|k: Seq<char>|
        #![auto]
        m.contains_key(k) && has_prefix(k, package_prefix()) && spec_decode_package(m[k]) == Some(e)
}

/// Some entry of the listing is the value `e`.
pub open spec fn listed_package(items: Seq<Package>, e: crate::models::PackageView) -> bool {
    exists|x: int| #![auto] 0 <= x < items.len() && items[x]@ == e
}

/// `items` lists exactly the stored packages: as many entries as package keys,
/// every entry decoded from some stored record, every stored record decoded
/// into some entry, ordered by price ascending.
pub open spec fn is_package_listing(m: Map<Seq<char>, Seq<u8>>, items: Seq<Package>) -> bool {
    &&& items.len() == count_prefix(m, package_prefix())
    &&& forall|x: int| 0 <= x < items.len() ==> stored_package(m, (#[trigger] items[x])@)
    &&& forall|k: Seq<char>|
        #[trigger] m.contains_key(k) && has_prefix(k, package_prefix()) ==> (spec_decode_package(m[k]) matches Some(
            e,
        ) && listed_package(items, e))
    &&& packages_sorted_by_price(items)
}

/// Some stored record of the kind decodes to `e`.
pub open spec fn stored_user(m: Map<Seq<char>, Seq<u8>>, e: UserView) -> bool {
    exists|k: Seq<char>|
        #![auto]
        m.contains_key(k) && has_prefix(k, user_prefix()) && spec_decode_user(m[k]) == Some(e)
}

/// Some entry of the listing is the value `e`.
pub open spec fn listed_user(items: Seq<User>, e: UserView) -> bool {
    exists|x: int| #![auto] 0 <= x < items.len() && items[x]@ == e
}

/// `items` lists exactly the stored users: as many entries as user keys,
/// every entry decoded from some stored record, every stored record decoded
/// into some entry, ordered by creation time ascending.
pub open spec fn is_user_listing(m: Map<Seq<char>, Seq<u8>>, items: Seq<User>) -> bool {
    &&& items.len() == count_prefix(m, user_prefix())
    &&& forall|x: int| 0 <= x < items.len() ==> stored_user(m, (#[trigger] items[x])@)
    &&& forall|k: Seq<char>|
        #[trigger] m.contains_key(k) && has_prefix(k, user_prefix()) ==> (spec_decode_user(m[k]) matches Some(
            e,
        ) && listed_user(items, e))
    &&& users_sorted_by_created(items)
}

/// Some stored record of the kind decodes to `e`.
pub open spec fn stored_venue(m: Map<Seq<char>, Seq<u8>>, e: crate::models::VenueView) -> bool {
    exists|k: Seq<char>|
        #![auto]
        m.contains_key(k) && has_prefix(k, venue_prefix()) && spec_decode_venue(m[k]) == Some(e)
}

/// Some entry of the listing is the value `e`.
pub open spec fn listed_venue(items: Seq<Venue>, e: crate::models::VenueView) -> bool {
    exists|x: int| #![auto] 0 <= x < items.len() && items[x]@ == e
}

/// `items` lists exactly the stored venues: as many entries as venue keys,
/// every entry decoded from some stored record, every stored record decoded
/// into some entry, ordered by name.
pub open spec fn is_venue_listing(m: Map<Seq<char>, Seq<u8>>, items: Seq<Venue>) -> bool {
    &&& items.len() == count_prefix(m, venue_prefix())
    &&& forall|x: int| 0 <= x < items.len() ==> stored_venue(m, (#[trigger] items[x])@)
    &&& forall|k: Seq<char>|
        #[trigger] m.contains_key(k) && has_prefix(k, venue_prefix()) ==> (spec_decode_venue(m[k]) matches Some(
            e,
        ) && listed_venue(items, e))
    &&& venues_sorted_by_name(items)
}

/// Some stored record of the kind decodes to `e`.
pub open spec fn stored_registration(m: Map<Seq<char>, Seq<u8>>, e: crate::models::RegistrationView) -> bool {
    exists|k: Seq<char>|
        #![auto]
        m.contains_key(k) && has_prefix(k, registration_prefix()) && spec_decode_registration(m[k]) == Some(e)
}

/// Some entry of the listing is the value `e`.
pub open spec fn listed_registration(items: Seq<Registration>, e: crate::models::RegistrationView) -> bool {
    exists|x: int| #![auto] 0 <= x < items.len() && items[x]@ == e
}

/// `items` lists exactly the stored registrations: as many entries as registration keys,
/// every entry decoded from some stored record, every stored record decoded
/// into some entry, ordered by creation time, newest first.
pub open spec fn is_registration_listing(m: Map<Seq<char>, Seq<u8>>, items: Seq<Registration>) -> bool {
    &&& items.len() == count_prefix(m, registration_prefix())
    &&& forall|x: int| 0 <= x < items.len() ==> stored_registration(m, (#[trigger] items[x])@)
    &&& forall|k: Seq<char>|
        #[trigger] m.contains_key(k) && has_prefix(k, registration_prefix()) ==> (spec_decode_registration(m[k]) matches Some(
            e,
        ) && listed_registration(items, e))
    &&& registrations_sorted_by_created_desc(items)
}

/// `items` are exactly the stored registrations whose user reference equals
/// `uid`, newest first.
pub open spec fn is_user_registration_listing(
    m: Map<Seq<char>, Seq<u8>>,
    uid: u128,
    items: Seq<Registration>,
) -> bool {
    &&& items.len() == count_user_registrations(m, uid)
    &&& forall|x: int|
        0 <= x < items.len() ==> (#[trigger] items[x]).user_id == uid && stored_registration(
            m,
            items[x]@,
        )
    &&& forall|k: Seq<char>|
        #[trigger] m.contains_key(k) && has_prefix(k, registration_prefix()) ==> (
        spec_decode_registration(m[k]) matches Some(g) && (g.user_id == uid
            ==> listed_registration(items, g)))
    &&& registrations_sorted_by_created_desc(items)
}


// ---------------------------------------------------------------------------
// Aggregation layer: export, import, statistics, wipe, seeding.
// ---------------------------------------------------------------------------

/// Replaying venue creates, first to last.
pub open spec fn spec_import_venues(m: Map<Seq<char>, Seq<u8>>, vs: Seq<Venue>) -> Map<
    Seq<char>,
    Seq<u8>,
>
    decreases vs.len(),
{
    if vs.len() == 0 {
        m
    } else {
        spec_create_venue(spec_import_venues(m, vs.drop_last()), vs.last()@)
    }
}

/// Replaying user creates, first to last.
pub open spec fn spec_import_users(m: Map<Seq<char>, Seq<u8>>, us: Seq<User>) -> Map<
    Seq<char>,
    Seq<u8>,
>
    decreases us.len(),
{
    if us.len() == 0 {
        m
    } else {
        spec_create_user(spec_import_users(m, us.drop_last()), us.last()@)
    }
}

/// Replaying package creates, first to last.
pub open spec fn spec_import_packages(m: Map<Seq<char>, Seq<u8>>, ps: Seq<Package>) -> Map<
    Seq<char>,
    Seq<u8>,
>
    decreases ps.len(),
{
    if ps.len() == 0 {
        m
    } else {
        spec_create_package(spec_import_packages(m, ps.drop_last()), ps.last()@)
    }
}

/// Replaying event creates, first to last.
pub open spec fn spec_import_events(m: Map<Seq<char>, Seq<u8>>, es: Seq<Event>) -> Map<
    Seq<char>,
    Seq<u8>,
>
    decreases es.len(),
{
    if es.len() == 0 {
        m
    } else {
        spec_create_event(spec_import_events(m, es.drop_last()), es.last()@)
    }
}

/// Replaying registration creates, first to last.
pub open spec fn spec_import_registrations(
    m: Map<Seq<char>, Seq<u8>>,
    gs: Seq<Registration>,
) -> Map<Seq<char>, Seq<u8>>
    decreases gs.len(),
{
    if gs.len() == 0 {
        m
    } else {
        spec_create_registration(spec_import_registrations(m, gs.drop_last()), gs.last()@)
    }
}

/// A full import replays every list in dependency order: venues, users,
/// packages, events, registrations.
pub open spec fn spec_import(
    m: Map<Seq<char>, Seq<u8>>,
    vs: Seq<Venue>,
    us: Seq<User>,
    ps: Seq<Package>,
    es: Seq<Event>,
    gs: Seq<Registration>,
) -> Map<Seq<char>, Seq<u8>> {
    spec_import_registrations(
        spec_import_events(spec_import_packages(spec_import_users(spec_import_venues(m, vs), us), ps), es),
        gs,
    )
}

/// Some event record exists: the sentinel the seeding check looks for.
pub open spec fn events_present(m: Map<Seq<char>, Seq<u8>>) -> bool {
    exists|k: Seq<char>| #![auto] m.contains_key(k) && has_prefix(k, event_prefix())
}

/// Seeding inserts the sample bundle only into a store with no events.
pub open spec fn spec_seed(
    m: Map<Seq<char>, Seq<u8>>,
    vs: Seq<Venue>,
    ps: Seq<Package>,
    es: Seq<Event>,
) -> Map<Seq<char>, Seq<u8>> {
    if events_present(m) {
        m
    } else {
        spec_import_events(spec_import_packages(spec_import_venues(m, vs), ps), es)
    }
}

/// Addition on counts that stops at the largest `usize` value.
pub open spec fn sat_add_usize(a: int, b: int) -> int {
    if a + b > usize::MAX {
        usize::MAX as int
    } else {
        a + b
    }
}

/// The saturating total of the five per-kind counts.
pub open spec fn spec_total_records(m: Map<Seq<char>, Seq<u8>>) -> int {
    sat_add_usize(
        sat_add_usize(
            sat_add_usize(
                sat_add_usize(
                    count_prefix(m, user_prefix()) as int,
                    count_prefix(m, event_prefix()) as int,
                ),
                count_prefix(m, venue_prefix()) as int,
            ),
            count_prefix(m, package_prefix()) as int,
        ),
        count_prefix(m, registration_prefix()) as int,
    )
}

impl Database {
    /// Opens (or creates) the store at the given directory path.
    pub fn new(path: &str) -> (r: Result<Database, DbError>)
        ensures
            r matches Ok(db) ==> db@.dom().finite(),
            r matches Err(e) ==> e == DbError::Store,
    {
        match StoreEngine::open(path) {
            Ok(store) => Ok(Database { store }),
            Err(_) => Err(DbError::Store),
        }
    }

    /// Opens a fresh, empty store backed by a temporary directory.
    pub fn temporary() -> (r: Result<Database, DbError>)
        ensures
            r matches Ok(db) ==> db@ == crate::store::empty_store(),
            r matches Err(e) ==> e == DbError::Store,
    {
        match StoreEngine::temporary() {
            Ok(store) => Ok(Database { store }),
            Err(_) => Err(DbError::Store),
        }
    }

    /// Writes the user's record and its email index entry.  The two writes
    /// are separately atomic: a failure in between leaves the record without
    /// its index entry, and nothing is promised then.
    pub fn create_user(&mut self, user: &User) -> (r: Result<(), DbError>)
        ensures
            r is Ok ==> final(self)@ == spec_create_user(old(self)@, user@),
            r matches Err(e) ==> e == DbError::Store,
    {
        let key = make_user_key(user.id);
        let value = encode_user(user);
        if let Err(_) = self.store.put(key.as_str(), value) {
            return Err(DbError::Store);
        }
        let ekey = make_email_key(user.email.as_str());
        let idbytes = format_id(user.id).as_str().as_bytes_vec();
        if let Err(_) = self.store.put(ekey.as_str(), idbytes) {
            return Err(DbError::Store);
        }
        Ok(())
    }

    /// Reads and decodes the user stored under the identifier, if any.
    pub fn get_user_by_id(&self, user_id: u128) -> (r: Result<Option<User>, DbError>)
        ensures
            r matches Ok(opt) ==> match opt {
                Some(u) => self@.contains_key(user_key(user_id)) && spec_decode_user(
                    self@[user_key(user_id)],
                ) == Some(u@),
                None => !self@.contains_key(user_key(user_id)),
            },
            r matches Err(e) ==> e == DbError::Decode ==> self@.contains_key(user_key(user_id))
                && spec_decode_user(self@[user_key(user_id)]) is None,
    {
        let key = make_user_key(user_id);
        match self.store.get(key.as_str()) {
            Ok(Some(v)) => match decode_user(&v) {
                Ok(u) => Ok(Some(u)),
                Err(_) => Err(DbError::Decode),
            },
            Ok(None) => Ok(None),
            Err(_) => Err(DbError::Store),
        }
    }

    /// Two-step lookup: the email index names an identifier, whose record is
    /// then fetched.  The steps are not atomic; a record written without its
    /// index entry is not found this way.
    pub fn get_user_by_email(&self, email: &str) -> (r: Result<Option<User>, DbError>)
        ensures
            r matches Ok(opt) ==> match opt {
                Some(u) => spec_email_lookup(self@, email@) == Some(u@),
                None => spec_email_lookup(self@, email@) is None,
            },
            r matches Err(e) ==> e == DbError::Decode ==> {
                &&& spec_email_lookup(self@, email@) is None
                &&& self@.contains_key(email_key(email@))
                &&& match spec_parse_id(self@[email_key(email@)]) {
                    Some(id) => self@.contains_key(user_key(id)) && spec_decode_user(
                        self@[user_key(id)],
                    ) is None,
                    None => true,
                }
            },
    {
        let ekey = make_email_key(email);
        let idbytes = match self.store.get(ekey.as_str()) {
            Ok(Some(v)) => v,
            Ok(None) => {
                return Ok(None);
            },
            Err(_) => {
                return Err(DbError::Store);
            },
        };
        let id = match parse_id(&idbytes) {
            Some(id) => id,
            None => {
                return Err(DbError::Decode);
            },
        };
        self.get_user_by_id(id)
    }

    /// Writes the event's record under its primary key.
    pub fn create_event(&mut self, event: &Event) -> (r: Result<(), DbError>)
        ensures
            r is Ok ==> final(self)@ == spec_create_event(old(self)@, event@),
            r matches Err(e) ==> e == DbError::Store,
    {
        let key = make_event_key(event.id);
        let value = encode_event(event);
        if let Err(_) = self.store.put(key.as_str(), value) {
            return Err(DbError::Store);
        }
        Ok(())
    }

    /// Reads and decodes the event stored under the identifier, if any.
    pub fn get_event_by_id(&self, event_id: u128) -> (r: Result<Option<Event>, DbError>)
        ensures
            r matches Ok(opt) ==> match opt {
                Some(e) => self@.contains_key(event_key(event_id)) && spec_decode_event(
                    self@[event_key(event_id)],
                ) == Some(e@),
                None => !self@.contains_key(event_key(event_id)),
            },
            r matches Err(e) ==> e == DbError::Decode ==> self@.contains_key(event_key(event_id))
                && spec_decode_event(self@[event_key(event_id)]) is None,
    {
        let key = make_event_key(event_id);
        match self.store.get(key.as_str()) {
            Ok(Some(v)) => match decode_event(&v) {
                Ok(e) => Ok(Some(e)),
                Err(_) => Err(DbError::Decode),
            },
            Ok(None) => Ok(None),
            Err(_) => Err(DbError::Store),
        }
    }

    /// Read-modify-write of the participant count: one more, never checked
    /// against the maximum (over-booking is allowed by design), and a silent
    /// no-op when the event does not exist.
    pub fn increment_event_participants(&mut self, event_id: u128) -> (r: Result<(), DbError>)
        ensures
            r is Ok ==> final(self)@ == spec_increment_event(old(self)@, event_id),
            r matches Err(e) ==> e == DbError::Decode ==> {
                &&& final(self)@ == old(self)@
                &&& old(self)@.contains_key(event_key(event_id))
                &&& spec_decode_event(old(self)@[event_key(event_id)]) is None
            },
    {
        let found = match self.get_event_by_id(event_id) {
            Ok(opt) => opt,
            Err(e) => {
                return Err(e);
            },
        };
        match found {
            Some(event) => {
                let bumped = Event {
                    current_participants: if event.current_participants == u32::MAX {
                        u32::MAX
                    } else {
                        event.current_participants + 1
                    },
                    ..event
                };
                let key = make_event_key(bumped.id);
                let value = encode_event(&bumped);
                if let Err(_) = self.store.put(key.as_str(), value) {
                    return Err(DbError::Store);
                }
                Ok(())
            },
            None => Ok(()),
        }
    }

    /// Writes the package's record under its primary key.
    pub fn create_package(&mut self, package: &Package) -> (r: Result<(), DbError>)
        ensures
            r is Ok ==> final(self)@ == spec_create_package(old(self)@, package@),
            r matches Err(e) ==> e == DbError::Store,
    {
        let key = make_package_key(package.id);
        let value = encode_package(package);
        if let Err(_) = self.store.put(key.as_str(), value) {
            return Err(DbError::Store);
        }
        Ok(())
    }

    /// Writes the venue's record under its primary key.
    pub fn create_venue(&mut self, venue: &Venue) -> (r: Result<(), DbError>)
        ensures
            r is Ok ==> final(self)@ == spec_create_venue(old(self)@, venue@),
            r matches Err(e) ==> e == DbError::Store,
    {
        let key = make_venue_key(venue.id);
        let value = encode_venue(venue);
        if let Err(_) = self.store.put(key.as_str(), value) {
            return Err(DbError::Store);
        }
        Ok(())
    }

    /// Writes the registration's record under its primary key.
    pub fn create_registration(&mut self, registration: &Registration) -> (r: Result<(), DbError>)
        ensures
            r is Ok ==> final(self)@ == spec_create_registration(old(self)@, registration@),
            r matches Err(e) ==> e == DbError::Store,
    {
        let key = make_registration_key(registration.id);
        let value = encode_registration(registration);
        if let Err(_) = self.store.put(key.as_str(), value) {
            return Err(DbError::Store);
        }
        Ok(())
    }

    /// Lists every stored event, ordered by start time ascending.  A record
    /// that does not decode aborts the whole listing.
    pub fn get_all_events(&self) -> (r: Result<Vec<Event>, DbError>)
        ensures
            r matches Ok(items) ==> is_event_listing(self@, items@),
            r matches Err(e) ==> e == DbError::Decode ==> exists|k: Seq<char>|
                #[trigger] self@.contains_key(k) && has_prefix(k, event_prefix())
                    && spec_decode_event(self@[k]) is None,
    {
        let pairs = match self.store.scan_prefix_pairs(event_prefix_str()) {
            Ok(p) => p,
            Err(_) => {
                return Err(DbError::Store);
            },
        };
        let mut out: Vec<Event> = Vec::new();
        let mut idx: usize = 0;
        while idx < pairs.len()
            invariant
                idx <= pairs.len(),
                out@.len() == idx,
                forall|x: int|
                    0 <= x < pairs@.len() ==> {
                        &&& has_prefix((#[trigger] pairs@[x]).0@, event_prefix())
                        &&& self@.contains_key(pairs@[x].0@)
                        &&& self@[pairs@[x].0@] == pairs@[x].1@
                    },
                forall|x: int|
                    0 <= x < idx ==> spec_decode_event(pairs@[x].1@) == Some((#[trigger] out@[x])@),
            decreases pairs@.len() - idx,
        {
            match decode_event(&pairs[idx].1) {
                Ok(e) => out.push(e),
                Err(_) => {
                    return Err(DbError::Decode);
                },
            }
            idx = idx + 1;
        }
        let ghost os = out@;
        let sorted = sort_events_by_start(out);
        proof {
            let m = self@;
            let ss = sorted@;
            let keys = Seq::new(pairs@.len(), |x: int| pairs@[x].0@);
            assert forall|k: Seq<char>| #[trigger] m.contains_key(k) && has_prefix(
                k,
                event_prefix(),
            ) implies keys.contains(k) by {
                let i = choose|i: int| 0 <= i < pairs@.len() && pairs@[i].0@ == k;
                assert(keys[i] == k);
            }
            lemma_scan_count(m, event_prefix(), keys);
            assert(ss.to_multiset().len() == ss.len());
            assert(os.to_multiset().len() == os.len());
            assert forall|x: int| 0 <= x < ss.len() implies stored_event(
                m,
                (#[trigger] ss[x])@,
            ) by {
                assert(ss.contains(ss[x]));
                assert(os.to_multiset().count(ss[x]) > 0);
                assert(os.contains(ss[x]));
                let i = choose|i: int| 0 <= i < os.len() && os[i] == ss[x];
                let k0 = pairs@[i].0@;
                assert(m.contains_key(k0) && has_prefix(k0, event_prefix()) && spec_decode_event(m[k0])
                    == Some(ss[x]@));
            }
            assert forall|k: Seq<char>| #[trigger] m.contains_key(k) && has_prefix(
                k,
                event_prefix(),
            ) implies (spec_decode_event(m[k]) matches Some(e) && listed_event(ss, e)) by {
                let i = choose|i: int| 0 <= i < pairs@.len() && pairs@[i].0@ == k;
                assert(spec_decode_event(m[k]) == Some(os[i]@));
                assert(os.contains(os[i]));
                assert(ss.to_multiset().count(os[i]) > 0);
                assert(ss.contains(os[i]));
                let x = choose|x: int| 0 <= x < ss.len() && ss[x] == os[i];
                assert(0 <= x < ss.len() && ss[x]@ == os[i]@);
            }
        }
        Ok(sorted)
    }

    /// Lists every stored package, ordered by price ascending.  A record
    /// that does not decode aborts the whole listing.
    pub fn get_all_packages(&self) -> (r: Result<Vec<Package>, DbError>)
        ensures
            r matches Ok(items) ==> is_package_listing(self@, items@),
            r matches Err(e) ==> e == DbError::Decode ==> exists|k: Seq<char>|
                #[trigger] self@.contains_key(k) && has_prefix(k, package_prefix())
                    && spec_decode_package(self@[k]) is None,
    {
        let pairs = match self.store.scan_prefix_pairs(package_prefix_str()) {
            Ok(p) => p,
            Err(_) => {
                return Err(DbError::Store);
            },
        };
        let mut out: Vec<Package> = Vec::new();
        let mut idx: usize = 0;
        while idx < pairs.len()
            invariant
                idx <= pairs.len(),
                out@.len() == idx,
                forall|x: int|
                    0 <= x < pairs@.len() ==> {
                        &&& has_prefix((#[trigger] pairs@[x]).0@, package_prefix())
                        &&& self@.contains_key(pairs@[x].0@)
                        &&& self@[pairs@[x].0@] == pairs@[x].1@
                    },
                forall|x: int|
                    0 <= x < idx ==> spec_decode_package(pairs@[x].1@) == Some((#[trigger] out@[x])@),
            decreases pairs@.len() - idx,
        {
            match decode_package(&pairs[idx].1) {
                Ok(e) => out.push(e),
                Err(_) => {
                    return Err(DbError::Decode);
                },
            }
            idx = idx + 1;
        }
        let ghost os = out@;
        let sorted = sort_packages_by_price(out);
        proof {
            let m = self@;
            let ss = sorted@;
            let keys = Seq::new(pairs@.len(), |x: int| pairs@[x].0@);
            assert forall|k: Seq<char>| #[trigger] m.contains_key(k) && has_prefix(
                k,
                package_prefix(),
            ) implies keys.contains(k) by {
                let i = choose|i: int| 0 <= i < pairs@.len() && pairs@[i].0@ == k;
                assert(keys[i] == k);
            }
            lemma_scan_count(m, package_prefix(), keys);
            assert(ss.to_multiset().len() == ss.len());
            assert(os.to_multiset().len() == os.len());
            assert forall|x: int| 0 <= x < ss.len() implies stored_package(
                m,
                (#[trigger] ss[x])@,
            ) by {
                assert(ss.contains(ss[x]));
                assert(os.to_multiset().count(ss[x]) > 0);
                assert(os.contains(ss[x]));
                let i = choose|i: int| 0 <= i < os.len() && os[i] == ss[x];
                let k0 = pairs@[i].0@;
                assert(m.contains_key(k0) && has_prefix(k0, package_prefix()) && spec_decode_package(m[k0])
                    == Some(ss[x]@));
            }
            assert forall|k: Seq<char>| #[trigger] m.contains_key(k) && has_prefix(
                k,
                package_prefix(),
            ) implies (spec_decode_package(m[k]) matches Some(e) && listed_package(ss, e)) by {
                let i = choose|i: int| 0 <= i < pairs@.len() && pairs@[i].0@ == k;
                assert(spec_decode_package(m[k]) == Some(os[i]@));
                assert(os.contains(os[i]));
                assert(ss.to_multiset().count(os[i]) > 0);
                assert(ss.contains(os[i]));
                let x = choose|x: int| 0 <= x < ss.len() && ss[x] == os[i];
                assert(0 <= x < ss.len() && ss[x]@ == os[i]@);
            }
        }
        Ok(sorted)
    }

    /// Lists every stored user, ordered by creation time ascending.  A record
    /// that does not decode aborts the whole listing.
    pub fn get_all_users(&self) -> (r: Result<Vec<User>, DbError>)
        ensures
            r matches Ok(items) ==> is_user_listing(self@, items@),
            r matches Err(e) ==> e == DbError::Decode ==> exists|k: Seq<char>|
                #[trigger] self@.contains_key(k) && has_prefix(k, user_prefix())
                    && spec_decode_user(self@[k]) is None,
    {
        let pairs = match self.store.scan_prefix_pairs(user_prefix_str()) {
            Ok(p) => p,
            Err(_) => {
                return Err(DbError::Store);
            },
        };
        let mut out: Vec<User> = Vec::new();
        let mut idx: usize = 0;
        while idx < pairs.len()
            invariant
                idx <= pairs.len(),
                out@.len() == idx,
                forall|x: int|
                    0 <= x < pairs@.len() ==> {
                        &&& has_prefix((#[trigger] pairs@[x]).0@, user_prefix())
                        &&& self@.contains_key(pairs@[x].0@)
                        &&& self@[pairs@[x].0@] == pairs@[x].1@
                    },
                forall|x: int|
                    0 <= x < idx ==> spec_decode_user(pairs@[x].1@) == Some((#[trigger] out@[x])@),
            decreases pairs@.len() - idx,
        {
            match decode_user(&pairs[idx].1) {
                Ok(e) => out.push(e),
                Err(_) => {
                    return Err(DbError::Decode);
                },
            }
            idx = idx + 1;
        }
        let ghost os = out@;
        let sorted = sort_users_by_created(out);
        proof {
            let m = self@;
            let ss = sorted@;
            let keys = Seq::new(pairs@.len(), |x: int| pairs@[x].0@);
            assert forall|k: Seq<char>| #[trigger] m.contains_key(k) && has_prefix(
                k,
                user_prefix(),
            ) implies keys.contains(k) by {
                let i = choose|i: int| 0 <= i < pairs@.len() && pairs@[i].0@ == k;
                assert(keys[i] == k);
            }
            lemma_scan_count(m, user_prefix(), keys);
            assert(ss.to_multiset().len() == ss.len());
            assert(os.to_multiset().len() == os.len());
            assert forall|x: int| 0 <= x < ss.len() implies stored_user(
                m,
                (#[trigger] ss[x])@,
            ) by {
                assert(ss.contains(ss[x]));
                assert(os.to_multiset().count(ss[x]) > 0);
                assert(os.contains(ss[x]));
                let i = choose|i: int| 0 <= i < os.len() && os[i] == ss[x];
                let k0 = pairs@[i].0@;
                assert(m.contains_key(k0) && has_prefix(k0, user_prefix()) && spec_decode_user(m[k0])
                    == Some(ss[x]@));
            }
            assert forall|k: Seq<char>| #[trigger] m.contains_key(k) && has_prefix(
                k,
                user_prefix(),
            ) implies (spec_decode_user(m[k]) matches Some(e) && listed_user(ss, e)) by {
                let i = choose|i: int| 0 <= i < pairs@.len() && pairs@[i].0@ == k;
                assert(spec_decode_user(m[k]) == Some(os[i]@));
                assert(os.contains(os[i]));
                assert(ss.to_multiset().count(os[i]) > 0);
                assert(ss.contains(os[i]));
                let x = choose|x: int| 0 <= x < ss.len() && ss[x] == os[i];
                assert(0 <= x < ss.len() && ss[x]@ == os[i]@);
            }
        }
        Ok(sorted)
    }

    /// Lists every stored venue, ordered by name.  A record
    /// that does not decode aborts the whole listing.
    pub fn get_all_venues(&self) -> (r: Result<Vec<Venue>, DbError>)
        ensures
            r matches Ok(items) ==> is_venue_listing(self@, items@),
            r matches Err(e) ==> e == DbError::Decode ==> exists|k: Seq<char>|
                #[trigger] self@.contains_key(k) && has_prefix(k, venue_prefix())
                    && spec_decode_venue(self@[k]) is None,
    {
        let pairs = match self.store.scan_prefix_pairs(venue_prefix_str()) {
            Ok(p) => p,
            Err(_) => {
                return Err(DbError::Store);
            },
        };
        let mut out: Vec<Venue> = Vec::new();
        let mut idx: usize = 0;
        while idx < pairs.len()
            invariant
                idx <= pairs.len(),
                out@.len() == idx,
                forall|x: int|
                    0 <= x < pairs@.len() ==> {
                        &&& has_prefix((#[trigger] pairs@[x]).0@, venue_prefix())
                        &&& self@.contains_key(pairs@[x].0@)
                        &&& self@[pairs@[x].0@] == pairs@[x].1@
                    },
                forall|x: int|
                    0 <= x < idx ==> spec_decode_venue(pairs@[x].1@) == Some((#[trigger] out@[x])@),
            decreases pairs@.len() - idx,
        {
            match decode_venue(&pairs[idx].1) {
                Ok(e) => out.push(e),
                Err(_) => {
                    return Err(DbError::Decode);
                },
            }
            idx = idx + 1;
        }
        let ghost os = out@;
        let sorted = sort_venues_by_name(out);
        proof {
            let m = self@;
            let ss = sorted@;
            let keys = Seq::new(pairs@.len(), |x: int| pairs@[x].0@);
            assert forall|k: Seq<char>| #[trigger] m.contains_key(k) && has_prefix(
                k,
                venue_prefix(),
            ) implies keys.contains(k) by {
                let i = choose|i: int| 0 <= i < pairs@.len() && pairs@[i].0@ == k;
                assert(keys[i] == k);
            }
            lemma_scan_count(m, venue_prefix(), keys);
            assert(ss.to_multiset().len() == ss.len());
            assert(os.to_multiset().len() == os.len());
            assert forall|x: int| 0 <= x < ss.len() implies stored_venue(
                m,
                (#[trigger] ss[x])@,
            ) by {
                assert(ss.contains(ss[x]));
                assert(os.to_multiset().count(ss[x]) > 0);
                assert(os.contains(ss[x]));
                let i = choose|i: int| 0 <= i < os.len() && os[i] == ss[x];
                let k0 = pairs@[i].0@;
                assert(m.contains_key(k0) && has_prefix(k0, venue_prefix()) && spec_decode_venue(m[k0])
                    == Some(ss[x]@));
            }
            assert forall|k: Seq<char>| #[trigger] m.contains_key(k) && has_prefix(
                k,
                venue_prefix(),
            ) implies (spec_decode_venue(m[k]) matches Some(e) && listed_venue(ss, e)) by {
                let i = choose|i: int| 0 <= i < pairs@.len() && pairs@[i].0@ == k;
                assert(spec_decode_venue(m[k]) == Some(os[i]@));
                assert(os.contains(os[i]));
                assert(ss.to_multiset().count(os[i]) > 0);
                assert(ss.contains(os[i]));
                let x = choose|x: int| 0 <= x < ss.len() && ss[x] == os[i];
                assert(0 <= x < ss.len() && ss[x]@ == os[i]@);
            }
        }
        Ok(sorted)
    }

    /// Lists every stored registration, ordered by creation time, newest first.  A record
    /// that does not decode aborts the whole listing.
    pub fn get_all_registrations(&self) -> (r: Result<Vec<Registration>, DbError>)
        ensures
            r matches Ok(items) ==> is_registration_listing(self@, items@),
            r matches Err(e) ==> e == DbError::Decode ==> exists|k: Seq<char>|
                #[trigger] self@.contains_key(k) && has_prefix(k, registration_prefix())
                    && spec_decode_registration(self@[k]) is None,
    {
        let pairs = match self.store.scan_prefix_pairs(registration_prefix_str()) {
            Ok(p) => p,
            Err(_) => {
                return Err(DbError::Store);
            },
        };
        let mut out: Vec<Registration> = Vec::new();
        let mut idx: usize = 0;
        while idx < pairs.len()
            invariant
                idx <= pairs.len(),
                out@.len() == idx,
                forall|x: int|
                    0 <= x < pairs@.len() ==> {
                        &&& has_prefix((#[trigger] pairs@[x]).0@, registration_prefix())
                        &&& self@.contains_key(pairs@[x].0@)
                        &&& self@[pairs@[x].0@] == pairs@[x].1@
                    },
                forall|x: int|
                    0 <= x < idx ==> spec_decode_registration(pairs@[x].1@) == Some((#[trigger] out@[x])@),
            decreases pairs@.len() - idx,
        {
            match decode_registration(&pairs[idx].1) {
                Ok(e) => out.push(e),
                Err(_) => {
                    return Err(DbError::Decode);
                },
            }
            idx = idx + 1;
        }
        let ghost os = out@;
        let sorted = sort_registrations_by_created_desc(out);
        proof {
            let m = self@;
            let ss = sorted@;
            let keys = Seq::new(pairs@.len(), |x: int| pairs@[x].0@);
            assert forall|k: Seq<char>| #[trigger] m.contains_key(k) && has_prefix(
                k,
                registration_prefix(),
            ) implies keys.contains(k) by {
                let i = choose|i: int| 0 <= i < pairs@.len() && pairs@[i].0@ == k;
                assert(keys[i] == k);
            }
            lemma_scan_count(m, registration_prefix(), keys);
            assert(ss.to_multiset().len() == ss.len());
            assert(os.to_multiset().len() == os.len());
            assert forall|x: int| 0 <= x < ss.len() implies stored_registration(
                m,
                (#[trigger] ss[x])@,
            ) by {
                assert(ss.contains(ss[x]));
                assert(os.to_multiset().count(ss[x]) > 0);
                assert(os.contains(ss[x]));
                let i = choose|i: int| 0 <= i < os.len() && os[i] == ss[x];
                let k0 = pairs@[i].0@;
                assert(m.contains_key(k0) && has_prefix(k0, registration_prefix()) && spec_decode_registration(m[k0])
                    == Some(ss[x]@));
            }
            assert forall|k: Seq<char>| #[trigger] m.contains_key(k) && has_prefix(
                k,
                registration_prefix(),
            ) implies (spec_decode_registration(m[k]) matches Some(e) && listed_registration(ss, e)) by {
                let i = choose|i: int| 0 <= i < pairs@.len() && pairs@[i].0@ == k;
                assert(spec_decode_registration(m[k]) == Some(os[i]@));
                assert(os.contains(os[i]));
                assert(ss.to_multiset().count(os[i]) > 0);
                assert(ss.contains(os[i]));
                let x = choose|x: int| 0 <= x < ss.len() && ss[x] == os[i];
                assert(0 <= x < ss.len() && ss[x]@ == os[i]@);
            }
        }
        Ok(sorted)
    }


    /// Lists the registrations of one user, newest first: a full scan of the
    /// registration records filtered by equality on the user reference.  A
    /// record that does not decode aborts the whole listing.
    pub fn get_user_registrations(&self, user_id: u128) -> (r: Result<Vec<Registration>, DbError>)
        ensures
            r matches Ok(items) ==> is_user_registration_listing(self@, user_id, items@),
            r matches Err(e) ==> e == DbError::Decode ==> exists|k: Seq<char>|
                #[trigger] self@.contains_key(k) && has_prefix(k, registration_prefix())
                    && spec_decode_registration(self@[k]) is None,
    {
        let pairs = match self.store.scan_prefix_pairs(registration_prefix_str()) {
            Ok(p) => p,
            Err(_) => {
                return Err(DbError::Store);
            },
        };
        let ghost keys = Seq::new(pairs@.len(), |x: int| pairs@[x].0@);
        let mut out: Vec<Registration> = Vec::new();
        let mut idx: usize = 0;
        while idx < pairs.len()
            invariant
                idx <= pairs.len(),
                keys == Seq::new(pairs@.len(), |x: int| pairs@[x].0@),
                forall|x: int|
                    0 <= x < pairs@.len() ==> {
                        &&& has_prefix((#[trigger] pairs@[x]).0@, registration_prefix())
                        &&& self@.contains_key(pairs@[x].0@)
                        &&& self@[pairs@[x].0@] == pairs@[x].1@
                    },
                out@.len() == keys.take(idx as int).filter(
                    |k: Seq<char>| matching_registration_key(self@, user_id, k),
                ).len(),
                forall|x: int|
                    0 <= x < out@.len() ==> (#[trigger] out@[x]).user_id == user_id
                        && stored_registration(self@, out@[x]@),
                forall|i: int|
                    0 <= i < idx ==> (spec_decode_registration(
                        (#[trigger] pairs@[i]).1@,
                    ) matches Some(g) && (g.user_id == user_id ==> listed_registration(out@, g))),
            decreases pairs@.len() - idx,
        {
            let ghost o0 = out@;
            match decode_registration(&pairs[idx].1) {
                Ok(g) => {
                    if g.user_id == user_id {
                        out.push(g);
                    }
                },
                Err(_) => {
                    return Err(DbError::Decode);
                },
            }
            proof {
                let pred = |k: Seq<char>| matching_registration_key(self@, user_id, k);
                let kk = keys[idx as int];
                assert(kk == pairs@[idx as int].0@);
                assert(keys.take(idx as int + 1) =~= keys.take(idx as int).push(kk));
                lemma_filter_push(keys.take(idx as int), kk, pred);
                let gd = spec_decode_registration(pairs@[idx as int].1@)->Some_0;
                assert(self@[kk] == pairs@[idx as int].1@);
                assert(pred(kk) == (gd.user_id == user_id));
                assert forall|i: int|
                    0 <= i < idx + 1 implies (spec_decode_registration(
                        (#[trigger] pairs@[i]).1@,
                    ) matches Some(g) && (g.user_id == user_id ==> listed_registration(
                        out@,
                        g,
                    ))) by {
                    if i < idx {
                        assert(spec_decode_registration(pairs@[i].1@) matches Some(g) && (
                        g.user_id == user_id ==> listed_registration(o0, g)));
                        let g0 = spec_decode_registration(pairs@[i].1@)->Some_0;
                        if g0.user_id == user_id {
                            let x = choose|x: int|
                                0 <= x < o0.len() && #[trigger] o0[x]@ == g0;
                            assert(out@[x]@ == g0);
                        }
                    } else {
                        let g0 = spec_decode_registration(pairs@[i].1@)->Some_0;
                        if g0.user_id == user_id {
                            assert(out@[out@.len() - 1]@ == g0);
                        }
                    }
                }
            }
            idx = idx + 1;
        }
        let ghost os = out@;
        let sorted = sort_registrations_by_created_desc(out);
        proof {
            let m = self@;
            let ss = sorted@;
            assert(ss.to_multiset().len() == ss.len());
            assert(os.to_multiset().len() == os.len());
            let pred = |k: Seq<char>| matching_registration_key(self@, user_id, k);
            assert(keys.take(pairs@.len() as int) =~= keys);
            assert(keys.no_duplicates()) by {
                assert forall|x: int, y: int|
                    0 <= x < keys.len() && 0 <= y < keys.len() && x != y implies keys[x]
                        != keys[y] by {
                    assert(keys[x] == pairs@[x].0@ && keys[y] == pairs@[y].0@);
                }
            }
            lemma_filter_distinct(keys, pred);
            let fs = keys.filter(pred);
            assert(fs.to_set() =~= m.dom().filter(
                |k: Seq<char>| matching_registration_key(self@, user_id, k),
            )) by {
                assert forall|k: Seq<char>| fs.to_set().contains(k) implies m.dom().filter(
                    |k: Seq<char>| matching_registration_key(self@, user_id, k),
                ).contains(k) by {
                    assert(fs.contains(k));
                    let i = choose|i: int| 0 <= i < fs.len() && fs[i] == k;
                    assert(pred(fs[i]));
                    assert(keys.contains(k));
                    let j = choose|j: int| 0 <= j < keys.len() && keys[j] == k;
                    assert(m.contains_key(pairs@[j].0@));
                }
                assert forall|k: Seq<char>| m.dom().filter(
                    |k: Seq<char>| matching_registration_key(self@, user_id, k),
                ).contains(k) implies fs.to_set().contains(k) by {
                    assert(m.contains_key(k) && has_prefix(k, registration_prefix()));
                    let i = choose|i: int| 0 <= i < pairs@.len() && pairs@[i].0@ == k;
                    assert(keys[i] == k && pred(keys[i]));
                    keys.lemma_filter_contains(pred, i);
                    assert(fs.contains(k));
                }
            }
            fs.unique_seq_to_set();
            assert(ss.len() == count_user_registrations(m, user_id));
            assert forall|x: int| 0 <= x < ss.len() implies (#[trigger] ss[x]).user_id == user_id
                && stored_registration(m, ss[x]@) by {
                assert(ss.contains(ss[x]));
                assert(os.to_multiset().count(ss[x]) > 0);
                assert(os.contains(ss[x]));
                let i = choose|i: int| 0 <= i < os.len() && os[i] == ss[x];
                assert(os[i].user_id == user_id && stored_registration(m, os[i]@));
            }
            assert forall|k: Seq<char>| #[trigger] m.contains_key(k) && has_prefix(
                k,
                registration_prefix(),
            ) implies (spec_decode_registration(m[k]) matches Some(g) && (g.user_id == user_id
                ==> listed_registration(ss, g))) by {
                let i = choose|i: int| 0 <= i < pairs@.len() && pairs@[i].0@ == k;
                assert(spec_decode_registration(pairs@[i].1@) matches Some(g) && (g.user_id
                    == user_id ==> listed_registration(os, g)));
                let g0 = spec_decode_registration(m[k])->Some_0;
                if g0.user_id == user_id {
                    let x = choose|x: int| 0 <= x < os.len() && #[trigger] os[x]@ == g0;
                    assert(os.contains(os[x]));
                    assert(ss.to_multiset().count(os[x]) > 0);
                    assert(ss.contains(os[x]));
                    let y = choose|y: int| 0 <= y < ss.len() && ss[y] == os[x];
                    assert(0 <= y < ss.len() && ss[y]@ == g0);
                }
            }
        }
        Ok(sorted)
    }


    /// Number of stored keys of one kind prefix.
    fn count_for_prefix(&self, prefix: &str) -> (r: Result<usize, DbError>)
        ensures
            r matches Ok(n) ==> n == count_prefix(self@, prefix@),
    {
        let pairs = match self.store.scan_prefix_pairs(prefix) {
            Ok(p) => p,
            Err(_) => {
                return Err(DbError::Store);
            },
        };
        proof {
            let m = self@;
            let keys = Seq::new(pairs@.len(), |x: int| pairs@[x].0@);
            assert forall|k: Seq<char>| #[trigger] m.contains_key(k) && has_prefix(
                k,
                prefix@,
            ) implies keys.contains(k) by {
                let i = choose|i: int| 0 <= i < pairs@.len() && pairs@[i].0@ == k;
                assert(keys[i] == k);
            }
            lemma_scan_count(m, prefix@, keys);
        }
        Ok(pairs.len())
    }

    /// Counts every kind's records and totals them.  The total saturates at
    /// the largest `usize` value; below that it is the plain sum.  The
    /// freshness timestamp is the wall clock, of which nothing is promised.
    pub fn get_data_statistics(&self) -> (r: Result<DataStatistics, DbError>)
        ensures
            r matches Ok(st) ==> {
                &&& st.users == count_prefix(self@, user_prefix())
                &&& st.events == count_prefix(self@, event_prefix())
                &&& st.venues == count_prefix(self@, venue_prefix())
                &&& st.packages == count_prefix(self@, package_prefix())
                &&& st.registrations == count_prefix(self@, registration_prefix())
                &&& st.total_records == spec_total_records(self@)
            },
    {
        let users = self.count_for_prefix(user_prefix_str())?;
        let events = self.count_for_prefix(event_prefix_str())?;
        let venues = self.count_for_prefix(venue_prefix_str())?;
        let packages = self.count_for_prefix(package_prefix_str())?;
        let registrations = self.count_for_prefix(registration_prefix_str())?;
        let t1 = if usize::MAX - users < events {
            usize::MAX
        } else {
            users + events
        };
        let t2 = if usize::MAX - t1 < venues {
            usize::MAX
        } else {
            t1 + venues
        };
        let t3 = if usize::MAX - t2 < packages {
            usize::MAX
        } else {
            t2 + packages
        };
        let t4 = if usize::MAX - t3 < registrations {
            usize::MAX
        } else {
            t3 + registrations
        };
        Ok(
            DataStatistics {
                users,
                events,
                venues,
                packages,
                registrations,
                total_records: t4,
                last_updated: crate::store::now_timestamp(),
            },
        )
    }

    /// Reads every kind's full listing into one snapshot.  The reads are not
    /// one atomic view: a concurrent writer may be reflected in some kinds
    /// and not others.
    pub fn export_all_data(&self) -> (r: Result<DatabaseExport, DbError>)
        ensures
            r matches Ok(ex) ==> {
                &&& is_user_listing(self@, ex.users@)
                &&& is_event_listing(self@, ex.events@)
                &&& is_venue_listing(self@, ex.venues@)
                &&& is_package_listing(self@, ex.packages@)
                &&& is_registration_listing(self@, ex.registrations@)
                &&& ex.version@ == "1.0"@
            },
    {
        let users = self.get_all_users()?;
        let events = self.get_all_events()?;
        let venues = self.get_all_venues()?;
        let packages = self.get_all_packages()?;
        let registrations = self.get_all_registrations()?;
        Ok(
            DatabaseExport {
                users,
                events,
                venues,
                packages,
                registrations,
                exported_at: crate::store::now_timestamp(),
                version: String::from_str("1.0"),
            },
        )
    }

    /// Replays a snapshot with one create per record, in dependency order:
    /// venues, users, packages, events, registrations.  Nothing is cleared
    /// first; re-importing the same identifiers overwrites their records.
    pub fn import_all_data(&mut self, data: &DatabaseExport) -> (r: Result<(), DbError>)
        ensures
            r is Ok ==> final(self)@ == spec_import(
                old(self)@,
                data.venues@,
                data.users@,
                data.packages@,
                data.events@,
                data.registrations@,
            ),
            r matches Err(e) ==> e == DbError::Store,
    {
        let ghost m0 = self@;
        let mut i: usize = 0;
        while i < data.venues.len()
            invariant
                i <= data.venues.len(),
                self@ == spec_import_venues(m0, data.venues@.take(i as int)),
            decreases data.venues@.len() - i,
        {
            self.create_venue(&data.venues[i])?;
            proof {
                let t = data.venues@.take(i + 1);
                assert(t.drop_last() =~= data.venues@.take(i as int));
                assert(t.last() == data.venues@[i as int]);
            }
            i = i + 1;
        }
        proof {
            assert(data.venues@.take(data.venues@.len() as int) =~= data.venues@);
        }
        let ghost m1 = self@;
        let mut i: usize = 0;
        while i < data.users.len()
            invariant
                i <= data.users.len(),
                self@ == spec_import_users(m1, data.users@.take(i as int)),
            decreases data.users@.len() - i,
        {
            self.create_user(&data.users[i])?;
            proof {
                let t = data.users@.take(i + 1);
                assert(t.drop_last() =~= data.users@.take(i as int));
                assert(t.last() == data.users@[i as int]);
            }
            i = i + 1;
        }
        proof {
            assert(data.users@.take(data.users@.len() as int) =~= data.users@);
        }
        let ghost m2 = self@;
        let mut i: usize = 0;
        while i < data.packages.len()
            invariant
                i <= data.packages.len(),
                self@ == spec_import_packages(m2, data.packages@.take(i as int)),
            decreases data.packages@.len() - i,
        {
            self.create_package(&data.packages[i])?;
            proof {
                let t = data.packages@.take(i + 1);
                assert(t.drop_last() =~= data.packages@.take(i as int));
                assert(t.last() == data.packages@[i as int]);
            }
            i = i + 1;
        }
        proof {
            assert(data.packages@.take(data.packages@.len() as int) =~= data.packages@);
        }
        let ghost m3 = self@;
        let mut i: usize = 0;
        while i < data.events.len()
            invariant
                i <= data.events.len(),
                self@ == spec_import_events(m3, data.events@.take(i as int)),
            decreases data.events@.len() - i,
        {
            self.create_event(&data.events[i])?;
            proof {
                let t = data.events@.take(i + 1);
                assert(t.drop_last() =~= data.events@.take(i as int));
                assert(t.last() == data.events@[i as int]);
            }
            i = i + 1;
        }
        proof {
            assert(data.events@.take(data.events@.len() as int) =~= data.events@);
        }
        let ghost m4 = self@;
        let mut i: usize = 0;
        while i < data.registrations.len()
            invariant
                i <= data.registrations.len(),
                self@ == spec_import_registrations(m4, data.registrations@.take(i as int)),
            decreases data.registrations@.len() - i,
        {
            self.create_registration(&data.registrations[i])?;
            proof {
                let t = data.registrations@.take(i + 1);
                assert(t.drop_last() =~= data.registrations@.take(i as int));
                assert(t.last() == data.registrations@[i as int]);
            }
            i = i + 1;
        }
        proof {
            assert(data.registrations@.take(data.registrations@.len() as int)
                =~= data.registrations@);
        }
        Ok(())
    }

    /// Erases every key of every kind, irreversibly.
    pub fn clear_all_data(&mut self) -> (r: Result<(), DbError>)
        ensures
            r is Ok ==> final(self)@ == crate::store::empty_store(),
            r matches Err(e) ==> e == DbError::Store,
    {
        match self.store.clear() {
            Ok(_) => Ok(()),
            Err(_) => Err(DbError::Store),
        }
    }

    /// Seeds the sample bundle when no event record exists yet; the presence
    /// of any event makes this a no-op, so a second run seeds nothing.  The
    /// check and the writes are not atomic: concurrent first boots must be
    /// serialized outside.
    pub fn init_sample_data(
        &mut self,
        venues: &Vec<Venue>,
        packages: &Vec<Package>,
        events: &Vec<Event>,
    ) -> (r: Result<(), DbError>)
        ensures
            r is Ok ==> final(self)@ == spec_seed(old(self)@, venues@, packages@, events@),
            r matches Err(e) ==> e == DbError::Store,
    {
        let probe = match self.store.scan_prefix_pairs(event_prefix_str()) {
            Ok(p) => p,
            Err(_) => {
                return Err(DbError::Store);
            },
        };
        if probe.len() > 0 {
            proof {
                assert(self@.contains_key(probe@[0].0@) && has_prefix(
                    probe@[0].0@,
                    event_prefix(),
                ));
            }
            return Ok(());
        }
        proof {
            assert(!events_present(self@)) by {
                if events_present(self@) {
                    let k = choose|k: Seq<char>|
                        #![auto]
                        self@.contains_key(k) && has_prefix(k, event_prefix());
                    assert(exists|i: int|
                        0 <= i < probe@.len() && (#[trigger] probe@[i]).0@ == k);
                }
            }
        }
        let ghost m0 = self@;
        let mut i: usize = 0;
        while i < venues.len()
            invariant
                i <= venues.len(),
                self@ == spec_import_venues(m0, venues@.take(i as int)),
            decreases venues@.len() - i,
        {
            self.create_venue(&venues[i])?;
            proof {
                let t = venues@.take(i + 1);
                assert(t.drop_last() =~= venues@.take(i as int));
                assert(t.last() == venues@[i as int]);
            }
            i = i + 1;
        }
        proof {
            assert(venues@.take(venues@.len() as int) =~= venues@);
        }
        let ghost m1 = self@;
        let mut i: usize = 0;
        while i < packages.len()
            invariant
                i <= packages.len(),
                self@ == spec_import_packages(m1, packages@.take(i as int)),
            decreases packages@.len() - i,
        {
            self.create_package(&packages[i])?;
            proof {
                let t = packages@.take(i + 1);
                assert(t.drop_last() =~= packages@.take(i as int));
                assert(t.last() == packages@[i as int]);
            }
            i = i + 1;
        }
        proof {
            assert(packages@.take(packages@.len() as int) =~= packages@);
        }
        let ghost m2 = self@;
        let mut i: usize = 0;
        while i < events.len()
            invariant
                i <= events.len(),
                self@ == spec_import_events(m2, events@.take(i as int)),
            decreases events@.len() - i,
        {
            self.create_event(&events[i])?;
            proof {
                let t = events@.take(i + 1);
                assert(t.drop_last() =~= events@.take(i as int));
                assert(t.last() == events@[i as int]);
            }
            i = i + 1;
        }
        proof {
            assert(events@.take(events@.len() as int) =~= events@);
        }
        Ok(())
    }

}

} // verus!
