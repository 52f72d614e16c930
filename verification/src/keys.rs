//! Store key scheme.
//!
//! Primary keys are `"{kind}:{identifier}"`; the one secondary index maps
//! `"user_email:{email}"` to the ASCII rendering of the owning identifier.
//! The kind prefixes are mutually non-prefixing, so a prefix scan for one
//! kind never returns a key of another kind; that is proved here once and
//! used by every listing and counting operation.

use vstd::prelude::*;
use crate::ident::{spec_id_chars, format_id, lemma_id_chars_injective};

verus! {

/// Prefix of user primary keys.
pub open spec fn user_prefix() -> Seq<char> {
    seq!['u', 's', 'e', 'r', ':']
}

/// Prefix of event primary keys.
pub open spec fn event_prefix() -> Seq<char> {
    seq!['e', 'v', 'e', 'n', 't', ':']
}

/// Prefix of package primary keys.
pub open spec fn package_prefix() -> Seq<char> {
    seq!['p', 'a', 'c', 'k', 'a', 'g', 'e', ':']
}

/// Prefix of venue primary keys.
pub open spec fn venue_prefix() -> Seq<char> {
    seq!['v', 'e', 'n', 'u', 'e', ':']
}

/// Prefix of registration primary keys.
pub open spec fn registration_prefix() -> Seq<char> {
    seq!['r', 'e', 'g', 'i', 's', 't', 'r', 'a', 't', 'i', 'o', 'n', ':']
}

/// Prefix of the secondary email index keys.
pub open spec fn email_prefix() -> Seq<char> {
    seq!['u', 's', 'e', 'r', '_', 'e', 'm', 'a', 'i', 'l', ':']
}

/// `k` starts with `p`.
pub open spec fn has_prefix(k: Seq<char>, p: Seq<char>) -> bool {
    p.len() <= k.len() && k.subrange(0, p.len() as int) == p
}

/// Primary key of a user.
pub open spec fn user_key(id: u128) -> Seq<char> {
    user_prefix() + spec_id_chars(id)
}

/// Primary key of an event.
pub open spec fn event_key(id: u128) -> Seq<char> {
    event_prefix() + spec_id_chars(id)
}

/// Primary key of a package.
pub open spec fn package_key(id: u128) -> Seq<char> {
    package_prefix() + spec_id_chars(id)
}

/// Primary key of a venue.
pub open spec fn venue_key(id: u128) -> Seq<char> {
    venue_prefix() + spec_id_chars(id)
}

/// Primary key of a registration.
pub open spec fn registration_key(id: u128) -> Seq<char> {
    registration_prefix() + spec_id_chars(id)
}

/// Secondary index key for an email address.
pub open spec fn email_key(email: Seq<char>) -> Seq<char> {
    email_prefix() + email
}

/// A key holding one of the six prefixes holds no other one: the first five
/// differ pairwise in their first character, and the two that share `user`
/// differ where one has `:` and the other `_`.
pub proof fn lemma_prefixes_exclusive(k: Seq<char>)
    ensures
        has_prefix(k, user_prefix()) ==> !has_prefix(k, event_prefix()) && !has_prefix(
            k,
            package_prefix(),
        ) && !has_prefix(k, venue_prefix()) && !has_prefix(k, registration_prefix())
            && !has_prefix(k, email_prefix()),
        has_prefix(k, event_prefix()) ==> !has_prefix(k, package_prefix()) && !has_prefix(
            k,
            venue_prefix(),
        ) && !has_prefix(k, registration_prefix()) && !has_prefix(k, email_prefix()),
        has_prefix(k, package_prefix()) ==> !has_prefix(k, venue_prefix()) && !has_prefix(
            k,
            registration_prefix(),
        ) && !has_prefix(k, email_prefix()),
        has_prefix(k, venue_prefix()) ==> !has_prefix(k, registration_prefix()) && !has_prefix(
            k,
            email_prefix(),
        ),
        has_prefix(k, registration_prefix()) ==> !has_prefix(k, email_prefix()),
{
    if has_prefix(k, user_prefix()) {
        assert(k[0] == 'u' && k[4] == ':');
    }
    if has_prefix(k, event_prefix()) {
        assert(k[0] == 'e');
    }
    if has_prefix(k, package_prefix()) {
        assert(k[0] == 'p');
    }
    if has_prefix(k, venue_prefix()) {
        assert(k[0] == 'v');
    }
    if has_prefix(k, registration_prefix()) {
        assert(k[0] == 'r');
    }
    if has_prefix(k, email_prefix()) {
        assert(k[0] == 'u' && k[4] == '_');
    }
}

/// Each primary key carries exactly its own kind prefix, and the email index
/// key carries only the email prefix.
pub proof fn lemma_key_prefixes(id: u128, email: Seq<char>)
    ensures
        has_prefix(user_key(id), user_prefix()),
        has_prefix(event_key(id), event_prefix()),
        has_prefix(package_key(id), package_prefix()),
        has_prefix(venue_key(id), venue_prefix()),
        has_prefix(registration_key(id), registration_prefix()),
        has_prefix(email_key(email), email_prefix()),
        !has_prefix(user_key(id), email_prefix()),
        !has_prefix(email_key(email), user_prefix()),
{
    assert(user_key(id).subrange(0, 5) =~= user_prefix());
    assert(event_key(id).subrange(0, 6) =~= event_prefix());
    assert(package_key(id).subrange(0, 8) =~= package_prefix());
    assert(venue_key(id).subrange(0, 6) =~= venue_prefix());
    assert(registration_key(id).subrange(0, 13) =~= registration_prefix());
    assert(email_key(email).subrange(0, 11) =~= email_prefix());
    lemma_prefixes_exclusive(user_key(id));
    lemma_prefixes_exclusive(email_key(email));
}

/// Distinct identifiers give distinct primary keys, for every kind, and
/// distinct emails give distinct index keys.
pub proof fn lemma_keys_injective(a: u128, b: u128, e1: Seq<char>, e2: Seq<char>)
    ensures
        user_key(a) == user_key(b) ==> a == b,
        event_key(a) == event_key(b) ==> a == b,
        package_key(a) == package_key(b) ==> a == b,
        venue_key(a) == venue_key(b) ==> a == b,
        registration_key(a) == registration_key(b) ==> a == b,
        email_key(e1) == email_key(e2) ==> e1 == e2,
{
    if user_key(a) == user_key(b) {
        lemma_concat_cancel_left(user_prefix(), spec_id_chars(a), spec_id_chars(b));
        lemma_id_chars_injective(a, b);
    }
    if event_key(a) == event_key(b) {
        lemma_concat_cancel_left(event_prefix(), spec_id_chars(a), spec_id_chars(b));
        lemma_id_chars_injective(a, b);
    }
    if package_key(a) == package_key(b) {
        lemma_concat_cancel_left(package_prefix(), spec_id_chars(a), spec_id_chars(b));
        lemma_id_chars_injective(a, b);
    }
    if venue_key(a) == venue_key(b) {
        lemma_concat_cancel_left(venue_prefix(), spec_id_chars(a), spec_id_chars(b));
        lemma_id_chars_injective(a, b);
    }
    if registration_key(a) == registration_key(b) {
        lemma_concat_cancel_left(registration_prefix(), spec_id_chars(a), spec_id_chars(b));
        lemma_id_chars_injective(a, b);
    }
    if email_key(e1) == email_key(e2) {
        lemma_concat_cancel_left(email_prefix(), e1, e2);
    }
}

/// Appending to a common prefix is injective in the appended part.
pub proof fn lemma_concat_cancel_left(p: Seq<char>, x: Seq<char>, y: Seq<char>)
    requires
        p + x == p + y,
    ensures
        x == y,
{
    let s1 = p + x;
    let s2 = p + y;
    let n = p.len() as int;
    assert(x =~= s1.subrange(n, s1.len() as int));
    assert(y =~= s2.subrange(n, s2.len() as int));
    assert(s1.subrange(n, s1.len() as int) == s2.subrange(n, s2.len() as int));
}

/// Builds the primary key string for a user.
pub fn make_user_key(id: u128) -> (r: String)
    ensures
        r@ == user_key(id),
{
    let mut s = String::from_str("user:");
    s.append(format_id(id).as_str());
    proof {
        reveal_strlit("user:");
        assert(s@ =~= user_key(id));
    }
    s
}

/// Builds the primary key string for an event.
pub fn make_event_key(id: u128) -> (r: String)
    ensures
        r@ == event_key(id),
{
    let mut s = String::from_str("event:");
    s.append(format_id(id).as_str());
    proof {
        reveal_strlit("event:");
        assert(s@ =~= event_key(id));
    }
    s
}

/// Builds the primary key string for a package.
pub fn make_package_key(id: u128) -> (r: String)
    ensures
        r@ == package_key(id),
{
    let mut s = String::from_str("package:");
    s.append(format_id(id).as_str());
    proof {
        reveal_strlit("package:");
        assert(s@ =~= package_key(id));
    }
    s
}

/// Builds the primary key string for a venue.
pub fn make_venue_key(id: u128) -> (r: String)
    ensures
        r@ == venue_key(id),
{
    let mut s = String::from_str("venue:");
    s.append(format_id(id).as_str());
    proof {
        reveal_strlit("venue:");
        assert(s@ =~= venue_key(id));
    }
    s
}

/// Builds the primary key string for a registration.
pub fn make_registration_key(id: u128) -> (r: String)
    ensures
        r@ == registration_key(id),
{
    let mut s = String::from_str("registration:");
    s.append(format_id(id).as_str());
    proof {
        reveal_strlit("registration:");
        assert(s@ =~= registration_key(id));
    }
    s
}

/// Builds the secondary index key string for an email address.
pub fn make_email_key(email: &str) -> (r: String)
    ensures
        r@ == email_key(email@),
{
    let mut s = String::from_str("user_email:");
    s.append(email);
    proof {
        reveal_strlit("user_email:");
        assert(s@ =~= email_key(email@));
    }
    s
}

/// Builds the bare kind prefix used for scans, as a string.
pub fn user_prefix_str() -> (r: &'static str)
    ensures
        r@ == user_prefix(),
{
    proof {
        reveal_strlit("user:");
        assert("user:"@ =~= user_prefix());
    }
    "user:"
}

/// Scan prefix for events.
pub fn event_prefix_str() -> (r: &'static str)
    ensures
        r@ == event_prefix(),
{
    proof {
        reveal_strlit("event:");
        assert("event:"@ =~= event_prefix());
    }
    "event:"
}

/// Scan prefix for packages.
pub fn package_prefix_str() -> (r: &'static str)
    ensures
        r@ == package_prefix(),
{
    proof {
        reveal_strlit("package:");
        assert("package:"@ =~= package_prefix());
    }
    "package:"
}

/// Scan prefix for venues.
pub fn venue_prefix_str() -> (r: &'static str)
    ensures
        r@ == venue_prefix(),
{
    proof {
        reveal_strlit("venue:");
        assert("venue:"@ =~= venue_prefix());
    }
    "venue:"
}

/// Scan prefix for registrations.
pub fn registration_prefix_str() -> (r: &'static str)
    ensures
        r@ == registration_prefix(),
{
    proof {
        reveal_strlit("registration:");
        assert("registration:"@ =~= registration_prefix());
    }
    "registration:"
}

} // verus!
