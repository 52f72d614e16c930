//! Binary codec for the stored entities.
//!
//! Every entity is encoded as a kind tag byte followed by its fields in a
//! fixed order: integers little-endian and fixed-width, strings as a byte
//! length followed by their UTF-8 bytes, options as a presence byte, enums as
//! one tag byte.  Decoding mirrors the encoding exactly, rejects unknown
//! tags, truncated input and trailing bytes, and never panics; the round
//! trip `decode(encode(e)) == e` is proved for every kind.

use vstd::prelude::*;
use vstd::bytes::{
    spec_u32_to_le_bytes,
    spec_u32_from_le_bytes,
    spec_u64_to_le_bytes,
    spec_u64_from_le_bytes,
    spec_u128_to_le_bytes,
    spec_u128_from_le_bytes,
    lemma_auto_spec_u32_to_from_le_bytes,
    lemma_auto_spec_u64_to_from_le_bytes,
    lemma_auto_spec_u128_to_from_le_bytes,
    u32_to_le_bytes,
    u32_from_le_bytes,
    u64_to_le_bytes,
    u64_from_le_bytes,
    u128_to_le_bytes,
    u128_from_le_bytes,
};
use vstd::utf8::{encode_utf8, decode_utf8, valid_utf8};
use vstd::slice::{slice_subrange, slice_to_vec};
use crate::models::{
    User, UserView, DanceExperience, Venue, VenueView, Package, PackageView, Event, EventView,
    EventType, Registration, RegistrationView, RegistrationStatus, PaymentStatus,
};
use crate::store::DbError;

verus! {

/// Kind tag of an encoded user.
pub const TAG_USER: u8 = 1;

/// Kind tag of an encoded venue.
pub const TAG_VENUE: u8 = 2;

/// Kind tag of an encoded package.
pub const TAG_PACKAGE: u8 = 3;

/// Kind tag of an encoded event.
pub const TAG_EVENT: u8 = 4;

/// Kind tag of an encoded registration.
pub const TAG_REGISTRATION: u8 = 5;

/// Relies on String::from_utf8: succeeds exactly on valid UTF-8 input and
/// returns the string those bytes encode.
#[verifier::external_body]
fn string_from_utf8(v: Vec<u8>) -> (r: Option<String>)
    ensures
        r matches Some(s) ==> encode_utf8(s@) == v@,
        valid_utf8(v@) ==> r is Some,
{
    String::from_utf8(v).ok()
}

// ---------------------------------------------------------------------------
// Field encodings, at the spec level.
// ---------------------------------------------------------------------------

/// One byte.
pub open spec fn enc_u8(x: u8) -> Seq<u8> {
    seq![x]
}

/// One byte, `1` for true and `0` for false.
pub open spec fn enc_bool(x: bool) -> Seq<u8> {
    seq![if x { 1u8 } else { 0u8 }]
}

/// Four little-endian bytes.
pub open spec fn enc_u32(x: u32) -> Seq<u8> {
    spec_u32_to_le_bytes(x)
}

/// Eight little-endian bytes.
pub open spec fn enc_u64(x: u64) -> Seq<u8> {
    spec_u64_to_le_bytes(x)
}

/// Sixteen little-endian bytes.
pub open spec fn enc_u128(x: u128) -> Seq<u8> {
    spec_u128_to_le_bytes(x)
}

/// A signed timestamp, written through its bit pattern.
pub open spec fn enc_i64(x: i64) -> Seq<u8> {
    spec_u64_to_le_bytes(x as u64)
}

/// Byte length as `u64`, then the UTF-8 bytes of the string.
pub open spec fn enc_str(s: Seq<char>) -> Seq<u8> {
    enc_u64(encode_utf8(s).len() as u64) + encode_utf8(s)
}

/// Presence byte, then the string when present.
pub open spec fn enc_opt_str(s: Option<Seq<char>>) -> Seq<u8> {
    match s {
        None => seq![0u8],
        Some(v) => seq![1u8] + enc_str(v),
    }
}

/// Presence byte, then the identifier when present.
pub open spec fn enc_opt_id(x: Option<u128>) -> Seq<u8> {
    match x {
        None => seq![0u8],
        Some(v) => seq![1u8] + enc_u128(v),
    }
}

/// Tag byte of an experience level.
pub open spec fn experience_tag(e: DanceExperience) -> u8 {
    match e {
        DanceExperience::Beginner => 0,
        DanceExperience::Intermediate => 1,
        DanceExperience::Advanced => 2,
        DanceExperience::Professional => 3,
    }
}

/// Experience level of a tag byte.
pub open spec fn experience_of_tag(t: u8) -> Option<DanceExperience> {
    if t == 0 {
        Some(DanceExperience::Beginner)
    } else if t == 1 {
        Some(DanceExperience::Intermediate)
    } else if t == 2 {
        Some(DanceExperience::Advanced)
    } else if t == 3 {
        Some(DanceExperience::Professional)
    } else {
        None
    }
}

/// Tag byte of an event type.
pub open spec fn event_type_tag(e: EventType) -> u8 {
    match e {
        EventType::Workshop => 0,
        EventType::Festival => 1,
        EventType::Intensive => 2,
        EventType::Social => 3,
        EventType::Competition => 4,
    }
}

/// Event type of a tag byte.
pub open spec fn event_type_of_tag(t: u8) -> Option<EventType> {
    if t == 0 {
        Some(EventType::Workshop)
    } else if t == 1 {
        Some(EventType::Festival)
    } else if t == 2 {
        Some(EventType::Intensive)
    } else if t == 3 {
        Some(EventType::Social)
    } else if t == 4 {
        Some(EventType::Competition)
    } else {
        None
    }
}

/// Tag byte of a registration status.
pub open spec fn reg_status_tag(e: RegistrationStatus) -> u8 {
    match e {
        RegistrationStatus::Pending => 0,
        RegistrationStatus::Confirmed => 1,
        RegistrationStatus::Cancelled => 2,
        RegistrationStatus::WaitingList => 3,
    }
}

/// Registration status of a tag byte.
pub open spec fn reg_status_of_tag(t: u8) -> Option<RegistrationStatus> {
    if t == 0 {
        Some(RegistrationStatus::Pending)
    } else if t == 1 {
        Some(RegistrationStatus::Confirmed)
    } else if t == 2 {
        Some(RegistrationStatus::Cancelled)
    } else if t == 3 {
        Some(RegistrationStatus::WaitingList)
    } else {
        None
    }
}

/// Tag byte of a payment status.
pub open spec fn pay_status_tag(e: PaymentStatus) -> u8 {
    match e {
        PaymentStatus::Pending => 0,
        PaymentStatus::Completed => 1,
        PaymentStatus::Failed => 2,
        PaymentStatus::Refunded => 3,
    }
}

/// Payment status of a tag byte.
pub open spec fn pay_status_of_tag(t: u8) -> Option<PaymentStatus> {
    if t == 0 {
        Some(PaymentStatus::Pending)
    } else if t == 1 {
        Some(PaymentStatus::Completed)
    } else if t == 2 {
        Some(PaymentStatus::Failed)
    } else if t == 3 {
        Some(PaymentStatus::Refunded)
    } else {
        None
    }
}

// ---------------------------------------------------------------------------
// Field decoders, at the spec level.  Each reads one field of `b` at
// position `i` and returns the value with the position after it.
// ---------------------------------------------------------------------------

/// Reads one byte.
pub open spec fn dec_u8(b: Seq<u8>, i: int) -> Option<(u8, int)> {
    if 0 <= i && i + 1 <= b.len() {
        Some((b[i], i + 1))
    } else {
        None
    }
}

/// Reads one boolean byte; any value above one is malformed.
pub open spec fn dec_bool(b: Seq<u8>, i: int) -> Option<(bool, int)> {
    match dec_u8(b, i) {
        Some((t, j)) => if t == 0 {
            Some((false, j))
        } else if t == 1 {
            Some((true, j))
        } else {
            None
        },
        None => None,
    }
}

/// Reads four little-endian bytes.
pub open spec fn dec_u32(b: Seq<u8>, i: int) -> Option<(u32, int)> {
    if 0 <= i && i + 4 <= b.len() {
        Some((spec_u32_from_le_bytes(b.subrange(i, i + 4)), i + 4))
    } else {
        None
    }
}

/// Reads eight little-endian bytes.
pub open spec fn dec_u64(b: Seq<u8>, i: int) -> Option<(u64, int)> {
    if 0 <= i && i + 8 <= b.len() {
        Some((spec_u64_from_le_bytes(b.subrange(i, i + 8)), i + 8))
    } else {
        None
    }
}

/// Reads sixteen little-endian bytes.
pub open spec fn dec_u128(b: Seq<u8>, i: int) -> Option<(u128, int)> {
    if 0 <= i && i + 16 <= b.len() {
        Some((spec_u128_from_le_bytes(b.subrange(i, i + 16)), i + 16))
    } else {
        None
    }
}

/// Reads a signed timestamp through its bit pattern.
pub open spec fn dec_i64(b: Seq<u8>, i: int) -> Option<(i64, int)> {
    match dec_u64(b, i) {
        Some((v, j)) => Some((v as i64, j)),
        None => None,
    }
}

/// Reads a length-prefixed UTF-8 string; bytes that are not valid UTF-8 are
/// malformed.
pub open spec fn dec_str(b: Seq<u8>, i: int) -> Option<(Seq<char>, int)> {
    match dec_u64(b, i) {
        Some((n, j)) => if j + n <= b.len() && valid_utf8(b.subrange(j, j + n)) {
            Some((decode_utf8(b.subrange(j, j + n)), j + n))
        } else {
            None
        },
        None => None,
    }
}

/// Reads an optional string behind a presence byte.
pub open spec fn dec_opt_str(b: Seq<u8>, i: int) -> Option<(Option<Seq<char>>, int)> {
    match dec_u8(b, i) {
        Some((t, j)) => if t == 0 {
            Some((None, j))
        } else if t == 1 {
            match dec_str(b, j) {
                Some((s, k)) => Some((Some(s), k)),
                None => None,
            }
        } else {
            None
        },
        None => None,
    }
}

/// Reads an optional identifier behind a presence byte.
pub open spec fn dec_opt_id(b: Seq<u8>, i: int) -> Option<(Option<u128>, int)> {
    match dec_u8(b, i) {
        Some((t, j)) => if t == 0 {
            Some((None, j))
        } else if t == 1 {
            match dec_u128(b, j) {
                Some((v, k)) => Some((Some(v), k)),
                None => None,
            }
        } else {
            None
        },
        None => None,
    }
}

/// Reads an experience level tag.
pub open spec fn dec_experience(b: Seq<u8>, i: int) -> Option<(DanceExperience, int)> {
    match dec_u8(b, i) {
        Some((t, j)) => match experience_of_tag(t) {
            Some(e) => Some((e, j)),
            None => None,
        },
        None => None,
    }
}

/// Reads an event type tag.
pub open spec fn dec_event_type(b: Seq<u8>, i: int) -> Option<(EventType, int)> {
    match dec_u8(b, i) {
        Some((t, j)) => match event_type_of_tag(t) {
            Some(e) => Some((e, j)),
            None => None,
        },
        None => None,
    }
}

/// Reads a registration status tag.
pub open spec fn dec_reg_status(b: Seq<u8>, i: int) -> Option<(RegistrationStatus, int)> {
    match dec_u8(b, i) {
        Some((t, j)) => match reg_status_of_tag(t) {
            Some(e) => Some((e, j)),
            None => None,
        },
        None => None,
    }
}

/// Reads a payment status tag.
pub open spec fn dec_pay_status(b: Seq<u8>, i: int) -> Option<(PaymentStatus, int)> {
    match dec_u8(b, i) {
        Some((t, j)) => match pay_status_of_tag(t) {
            Some(e) => Some((e, j)),
            None => None,
        },
        None => None,
    }
}

// ---------------------------------------------------------------------------
// Decode-after-encode, one lemma per field shape.  Each consumes the field
// encoding from the front of the remaining suffix.
// ---------------------------------------------------------------------------

/// A string whose UTF-8 form is no longer than a `u64` length can state.
pub open spec fn str_fits(s: Seq<char>) -> bool {
    encode_utf8(s).len() <= u64::MAX
}

proof fn lemma_dec_u8_of(b: Seq<u8>, i: int, x: u8, rest: Seq<u8>)
    requires
        0 <= i <= b.len(),
        b.subrange(i, b.len() as int) == enc_u8(x) + rest,
    ensures
        dec_u8(b, i) == Some((x, i + 1)),
        b.subrange(i + 1, b.len() as int) == rest,
{
    let suf = b.subrange(i, b.len() as int);
    assert(suf.len() == 1 + rest.len());
    assert(b[i] == suf[0]);
    assert(suf[0] == (enc_u8(x) + rest)[0]);
    assert forall|j: int| 0 <= j < rest.len() implies b.subrange(i + 1, b.len() as int)[j]
        == rest[j] by {
        assert((enc_u8(x) + rest)[1 + j] == rest[j]);
        assert(suf[1 + j] == b[i + 1 + j]);
    }
    assert(b.subrange(i + 1, b.len() as int) =~= rest);
}

proof fn lemma_dec_bool_of(b: Seq<u8>, i: int, x: bool, rest: Seq<u8>)
    requires
        0 <= i <= b.len(),
        b.subrange(i, b.len() as int) == enc_bool(x) + rest,
    ensures
        dec_bool(b, i) == Some((x, i + 1)),
        b.subrange(i + 1, b.len() as int) == rest,
{
    lemma_dec_u8_of(b, i, if x { 1u8 } else { 0u8 }, rest);
}

proof fn lemma_dec_u32_of(b: Seq<u8>, i: int, x: u32, rest: Seq<u8>)
    requires
        0 <= i <= b.len(),
        b.subrange(i, b.len() as int) == enc_u32(x) + rest,
    ensures
        dec_u32(b, i) == Some((x, i + 4)),
        b.subrange(i + 4, b.len() as int) == rest,
{
    lemma_auto_spec_u32_to_from_le_bytes();
    let suf = b.subrange(i, b.len() as int);
    assert(suf.len() == 4 + rest.len());
    assert(b.subrange(i, i + 4) =~= spec_u32_to_le_bytes(x)) by {
        assert forall|j: int| 0 <= j < 4 implies b.subrange(i, i + 4)[j] == spec_u32_to_le_bytes(
            x,
        )[j] by {
            assert(b.subrange(i, i + 4)[j] == suf[j]);
            assert(suf[j] == (enc_u32(x) + rest)[j]);
        }
    }
    assert forall|j: int| 0 <= j < rest.len() implies b.subrange(i + 4, b.len() as int)[j]
        == rest[j] by {
        assert((enc_u32(x) + rest)[4 + j] == rest[j]);
        assert(suf[4 + j] == b[i + 4 + j]);
    }
    assert(b.subrange(i + 4, b.len() as int) =~= rest);
}

proof fn lemma_dec_u64_of(b: Seq<u8>, i: int, x: u64, rest: Seq<u8>)
    requires
        0 <= i <= b.len(),
        b.subrange(i, b.len() as int) == enc_u64(x) + rest,
    ensures
        dec_u64(b, i) == Some((x, i + 8)),
        b.subrange(i + 8, b.len() as int) == rest,
{
    lemma_auto_spec_u64_to_from_le_bytes();
    let suf = b.subrange(i, b.len() as int);
    assert(suf.len() == 8 + rest.len());
    assert(b.subrange(i, i + 8) =~= spec_u64_to_le_bytes(x)) by {
        assert forall|j: int| 0 <= j < 8 implies b.subrange(i, i + 8)[j] == spec_u64_to_le_bytes(
            x,
        )[j] by {
            assert(b.subrange(i, i + 8)[j] == suf[j]);
            assert(suf[j] == (enc_u64(x) + rest)[j]);
        }
    }
    assert forall|j: int| 0 <= j < rest.len() implies b.subrange(i + 8, b.len() as int)[j]
        == rest[j] by {
        assert((enc_u64(x) + rest)[8 + j] == rest[j]);
        assert(suf[8 + j] == b[i + 8 + j]);
    }
    assert(b.subrange(i + 8, b.len() as int) =~= rest);
}

proof fn lemma_dec_u128_of(b: Seq<u8>, i: int, x: u128, rest: Seq<u8>)
    requires
        0 <= i <= b.len(),
        b.subrange(i, b.len() as int) == enc_u128(x) + rest,
    ensures
        dec_u128(b, i) == Some((x, i + 16)),
        b.subrange(i + 16, b.len() as int) == rest,
{
    lemma_auto_spec_u128_to_from_le_bytes();
    let suf = b.subrange(i, b.len() as int);
    assert(suf.len() == 16 + rest.len());
    assert(b.subrange(i, i + 16) =~= spec_u128_to_le_bytes(x)) by {
        assert forall|j: int| 0 <= j < 16 implies b.subrange(i, i + 16)[j] == spec_u128_to_le_bytes(
            x,
        )[j] by {
            assert(b.subrange(i, i + 16)[j] == suf[j]);
            assert(suf[j] == (enc_u128(x) + rest)[j]);
        }
    }
    assert forall|j: int| 0 <= j < rest.len() implies b.subrange(i + 16, b.len() as int)[j]
        == rest[j] by {
        assert((enc_u128(x) + rest)[16 + j] == rest[j]);
        assert(suf[16 + j] == b[i + 16 + j]);
    }
    assert(b.subrange(i + 16, b.len() as int) =~= rest);
}

proof fn lemma_dec_i64_of(b: Seq<u8>, i: int, x: i64, rest: Seq<u8>)
    requires
        0 <= i <= b.len(),
        b.subrange(i, b.len() as int) == enc_i64(x) + rest,
    ensures
        dec_i64(b, i) == Some((x, i + 8)),
        b.subrange(i + 8, b.len() as int) == rest,
{
    lemma_dec_u64_of(b, i, x as u64, rest);
    assert((x as u64) as i64 == x) by (bit_vector);
}

proof fn lemma_dec_str_of(b: Seq<u8>, i: int, s: Seq<char>, rest: Seq<u8>)
    requires
        0 <= i <= b.len(),
        str_fits(s),
        b.subrange(i, b.len() as int) == enc_str(s) + rest,
    ensures
        dec_str(b, i) == Some((s, i + enc_str(s).len())),
        b.subrange(i + enc_str(s).len(), b.len() as int) == rest,
{
    broadcast use vstd::utf8::encode_utf8_valid_utf8, vstd::utf8::encode_utf8_decode_utf8;

    let u = encode_utf8(s);
    let n = u.len() as u64;
    assert(enc_str(s) == enc_u64(n) + u);
    assert(b.subrange(i, b.len() as int) =~= enc_u64(n) + (u + rest));
    lemma_dec_u64_of(b, i, n, u + rest);
    let j = i + 8;
    assert(b.subrange(j, b.len() as int) == u + rest);
    assert(j + n <= b.len());
    assert(b.subrange(j, j + n as int) =~= u) by {
        assert forall|t: int| 0 <= t < n implies b.subrange(j, j + n as int)[t] == u[t] by {
            assert(b.subrange(j, b.len() as int)[t] == (u + rest)[t]);
        }
    }
    assert(valid_utf8(u));
    assert(decode_utf8(u) == s);
    assert forall|t: int| 0 <= t < rest.len() implies b.subrange(j + n as int, b.len() as int)[t]
        == rest[t] by {
        assert((u + rest)[n + t] == rest[t]);
        assert(b.subrange(j, b.len() as int)[n + t] == b[j + n + t]);
    }
    assert(b.subrange(j + n as int, b.len() as int) =~= rest);
    assert(enc_str(s).len() == 8 + n);
}

proof fn lemma_dec_opt_str_of(b: Seq<u8>, i: int, s: Option<Seq<char>>, rest: Seq<u8>)
    requires
        0 <= i <= b.len(),
        s matches Some(v) ==> str_fits(v),
        b.subrange(i, b.len() as int) == enc_opt_str(s) + rest,
    ensures
        dec_opt_str(b, i) == Some((s, i + enc_opt_str(s).len())),
        b.subrange(i + enc_opt_str(s).len(), b.len() as int) == rest,
{
    match s {
        None => {
            lemma_dec_u8_of(b, i, 0, rest);
        },
        Some(v) => {
            assert(b.subrange(i, b.len() as int) =~= enc_u8(1) + (enc_str(v) + rest));
            lemma_dec_u8_of(b, i, 1, enc_str(v) + rest);
            lemma_dec_str_of(b, i + 1, v, rest);
        },
    }
}

proof fn lemma_dec_opt_id_of(b: Seq<u8>, i: int, x: Option<u128>, rest: Seq<u8>)
    requires
        0 <= i <= b.len(),
        b.subrange(i, b.len() as int) == enc_opt_id(x) + rest,
    ensures
        dec_opt_id(b, i) == Some((x, i + enc_opt_id(x).len())),
        b.subrange(i + enc_opt_id(x).len(), b.len() as int) == rest,
{
    match x {
        None => {
            lemma_dec_u8_of(b, i, 0, rest);
        },
        Some(v) => {
            assert(b.subrange(i, b.len() as int) =~= enc_u8(1) + (enc_u128(v) + rest));
            lemma_dec_u8_of(b, i, 1, enc_u128(v) + rest);
            lemma_dec_u128_of(b, i + 1, v, rest);
        },
    }
}

proof fn lemma_dec_experience_of(b: Seq<u8>, i: int, e: DanceExperience, rest: Seq<u8>)
    requires
        0 <= i <= b.len(),
        b.subrange(i, b.len() as int) == enc_u8(experience_tag(e)) + rest,
    ensures
        dec_experience(b, i) == Some((e, i + 1)),
        b.subrange(i + 1, b.len() as int) == rest,
{
    lemma_dec_u8_of(b, i, experience_tag(e), rest);
}

proof fn lemma_dec_event_type_of(b: Seq<u8>, i: int, e: EventType, rest: Seq<u8>)
    requires
        0 <= i <= b.len(),
        b.subrange(i, b.len() as int) == enc_u8(event_type_tag(e)) + rest,
    ensures
        dec_event_type(b, i) == Some((e, i + 1)),
        b.subrange(i + 1, b.len() as int) == rest,
{
    lemma_dec_u8_of(b, i, event_type_tag(e), rest);
}

proof fn lemma_dec_reg_status_of(b: Seq<u8>, i: int, e: RegistrationStatus, rest: Seq<u8>)
    requires
        0 <= i <= b.len(),
        b.subrange(i, b.len() as int) == enc_u8(reg_status_tag(e)) + rest,
    ensures
        dec_reg_status(b, i) == Some((e, i + 1)),
        b.subrange(i + 1, b.len() as int) == rest,
{
    lemma_dec_u8_of(b, i, reg_status_tag(e), rest);
}

proof fn lemma_dec_pay_status_of(b: Seq<u8>, i: int, e: PaymentStatus, rest: Seq<u8>)
    requires
        0 <= i <= b.len(),
        b.subrange(i, b.len() as int) == enc_u8(pay_status_tag(e)) + rest,
    ensures
        dec_pay_status(b, i) == Some((e, i + 1)),
        b.subrange(i + 1, b.len() as int) == rest,
{
    lemma_dec_u8_of(b, i, pay_status_tag(e), rest);
}

// ---------------------------------------------------------------------------
// Executable field writers and readers, each proved against its spec twin.
// ---------------------------------------------------------------------------

fn write_u8(out: &mut Vec<u8>, x: u8)
    ensures
        final(out)@ == old(out)@ + enc_u8(x),
{
    out.push(x);
    proof {
        assert(final(out)@ =~= old(out)@ + enc_u8(x));
    }
}

fn write_bool(out: &mut Vec<u8>, x: bool)
    ensures
        final(out)@ == old(out)@ + enc_bool(x),
{
    if x {
        write_u8(out, 1);
    } else {
        write_u8(out, 0);
    }
}

fn write_u32(out: &mut Vec<u8>, x: u32)
    ensures
        final(out)@ == old(out)@ + enc_u32(x),
{
    let mut bytes = u32_to_le_bytes(x);
    out.append(&mut bytes);
}

fn write_u64(out: &mut Vec<u8>, x: u64)
    ensures
        final(out)@ == old(out)@ + enc_u64(x),
{
    let mut bytes = u64_to_le_bytes(x);
    out.append(&mut bytes);
}

fn write_u128(out: &mut Vec<u8>, x: u128)
    ensures
        final(out)@ == old(out)@ + enc_u128(x),
{
    let mut bytes = u128_to_le_bytes(x);
    out.append(&mut bytes);
}

fn write_i64(out: &mut Vec<u8>, x: i64)
    ensures
        final(out)@ == old(out)@ + enc_i64(x),
{
    write_u64(out, x as u64);
}

fn write_str(out: &mut Vec<u8>, s: &str)
    ensures
        final(out)@ == old(out)@ + enc_str(s@),
{
    let mut bytes = s.as_bytes_vec();
    let n = bytes.len();
    write_u64(out, n as u64);
    out.append(&mut bytes);
    proof {
        assert(final(out)@ =~= old(out)@ + enc_str(s@));
    }
}

fn write_opt_str(out: &mut Vec<u8>, s: &Option<String>)
    ensures
        final(out)@ == old(out)@ + enc_opt_str(
            match s {
                Some(v) => Some(v@),
                None => None,
            },
        ),
{
    match s {
        None => {
            write_u8(out, 0);
        },
        Some(v) => {
            write_u8(out, 1);
            write_str(out, v.as_str());
            proof {
                assert(final(out)@ =~= old(out)@ + enc_opt_str(Some(v@)));
            }
        },
    }
}

fn write_opt_id(out: &mut Vec<u8>, x: &Option<u128>)
    ensures
        final(out)@ == old(out)@ + enc_opt_id(*x),
{
    match x {
        None => {
            write_u8(out, 0);
        },
        Some(v) => {
            write_u8(out, 1);
            write_u128(out, *v);
            proof {
                assert(final(out)@ =~= old(out)@ + enc_opt_id(*x));
            }
        },
    }
}

fn read_u8(buf: &Vec<u8>, pos: usize) -> (r: Option<(u8, usize)>)
    ensures
        match r {
            Some((v, p)) => dec_u8(buf@, pos as int) == Some((v, p as int)),
            None => dec_u8(buf@, pos as int) is None,
        },
{
    if pos < buf.len() {
        Some((buf[pos], pos + 1))
    } else {
        None
    }
}

fn read_bool(buf: &Vec<u8>, pos: usize) -> (r: Option<(bool, usize)>)
    ensures
        match r {
            Some((v, p)) => dec_bool(buf@, pos as int) == Some((v, p as int)),
            None => dec_bool(buf@, pos as int) is None,
        },
{
    match read_u8(buf, pos) {
        Some((t, p)) => if t == 0 {
            Some((false, p))
        } else if t == 1 {
            Some((true, p))
        } else {
            None
        },
        None => None,
    }
}

fn read_u32(buf: &Vec<u8>, pos: usize) -> (r: Option<(u32, usize)>)
    ensures
        match r {
            Some((v, p)) => dec_u32(buf@, pos as int) == Some((v, p as int)),
            None => dec_u32(buf@, pos as int) is None,
        },
{
    if buf.len() >= 4 && pos <= buf.len() - 4 {
        let sub = slice_subrange(buf.as_slice(), pos, pos + 4);
        Some((u32_from_le_bytes(sub), pos + 4))
    } else {
        None
    }
}

fn read_u64(buf: &Vec<u8>, pos: usize) -> (r: Option<(u64, usize)>)
    ensures
        match r {
            Some((v, p)) => dec_u64(buf@, pos as int) == Some((v, p as int)),
            None => dec_u64(buf@, pos as int) is None,
        },
{
    if buf.len() >= 8 && pos <= buf.len() - 8 {
        let sub = slice_subrange(buf.as_slice(), pos, pos + 8);
        Some((u64_from_le_bytes(sub), pos + 8))
    } else {
        None
    }
}

fn read_u128(buf: &Vec<u8>, pos: usize) -> (r: Option<(u128, usize)>)
    ensures
        match r {
            Some((v, p)) => dec_u128(buf@, pos as int) == Some((v, p as int)),
            None => dec_u128(buf@, pos as int) is None,
        },
{
    if buf.len() >= 16 && pos <= buf.len() - 16 {
        let sub = slice_subrange(buf.as_slice(), pos, pos + 16);
        Some((u128_from_le_bytes(sub), pos + 16))
    } else {
        None
    }
}

fn read_i64(buf: &Vec<u8>, pos: usize) -> (r: Option<(i64, usize)>)
    ensures
        match r {
            Some((v, p)) => dec_i64(buf@, pos as int) == Some((v, p as int)),
            None => dec_i64(buf@, pos as int) is None,
        },
{
    match read_u64(buf, pos) {
        Some((v, p)) => Some((v as i64, p)),
        None => None,
    }
}

fn read_str(buf: &Vec<u8>, pos: usize) -> (r: Option<(String, usize)>)
    ensures
        match r {
            Some((v, p)) => dec_str(buf@, pos as int) == Some((v@, p as int)),
            None => dec_str(buf@, pos as int) is None,
        },
{
    broadcast use vstd::utf8::encode_utf8_valid_utf8, vstd::utf8::encode_utf8_decode_utf8;

    match read_u64(buf, pos) {
        Some((n, p)) => {
            if n <= (buf.len() - p) as u64 {
                let end = p + (n as usize);
                let sub = slice_to_vec(slice_subrange(buf.as_slice(), p, end));
                match string_from_utf8(sub) {
                    Some(s) => {
                        proof {
                            assert(decode_utf8(buf@.subrange(p as int, p + n as int)) == s@);
                        }
                        Some((s, end))
                    },
                    None => None,
                }
            } else {
                None
            }
        },
        None => None,
    }
}

fn read_opt_str(buf: &Vec<u8>, pos: usize) -> (r: Option<(Option<String>, usize)>)
    ensures
        match r {
            Some((v, p)) => dec_opt_str(buf@, pos as int) == Some(
                (
                    match v {
                        Some(s) => Some(s@),
                        None => None,
                    },
                    p as int,
                ),
            ),
            None => dec_opt_str(buf@, pos as int) is None,
        },
{
    match read_u8(buf, pos) {
        Some((t, p)) => if t == 0 {
            Some((None, p))
        } else if t == 1 {
            match read_str(buf, p) {
                Some((s, q)) => Some((Some(s), q)),
                None => None,
            }
        } else {
            None
        },
        None => None,
    }
}

fn read_opt_id(buf: &Vec<u8>, pos: usize) -> (r: Option<(Option<u128>, usize)>)
    ensures
        match r {
            Some((v, p)) => dec_opt_id(buf@, pos as int) == Some((v, p as int)),
            None => dec_opt_id(buf@, pos as int) is None,
        },
{
    match read_u8(buf, pos) {
        Some((t, p)) => if t == 0 {
            Some((None, p))
        } else if t == 1 {
            match read_u128(buf, p) {
                Some((v, q)) => Some((Some(v), q)),
                None => None,
            }
        } else {
            None
        },
        None => None,
    }
}

fn read_experience(buf: &Vec<u8>, pos: usize) -> (r: Option<(DanceExperience, usize)>)
    ensures
        match r {
            Some((v, p)) => dec_experience(buf@, pos as int) == Some((v, p as int)),
            None => dec_experience(buf@, pos as int) is None,
        },
{
    match read_u8(buf, pos) {
        Some((t, p)) => if t == 0 {
            Some((DanceExperience::Beginner, p))
        } else if t == 1 {
            Some((DanceExperience::Intermediate, p))
        } else if t == 2 {
            Some((DanceExperience::Advanced, p))
        } else if t == 3 {
            Some((DanceExperience::Professional, p))
        } else {
            None
        },
        None => None,
    }
}

fn read_event_type(buf: &Vec<u8>, pos: usize) -> (r: Option<(EventType, usize)>)
    ensures
        match r {
            Some((v, p)) => dec_event_type(buf@, pos as int) == Some((v, p as int)),
            None => dec_event_type(buf@, pos as int) is None,
        },
{
    match read_u8(buf, pos) {
        Some((t, p)) => if t == 0 {
            Some((EventType::Workshop, p))
        } else if t == 1 {
            Some((EventType::Festival, p))
        } else if t == 2 {
            Some((EventType::Intensive, p))
        } else if t == 3 {
            Some((EventType::Social, p))
        } else if t == 4 {
            Some((EventType::Competition, p))
        } else {
            None
        },
        None => None,
    }
}

fn read_reg_status(buf: &Vec<u8>, pos: usize) -> (r: Option<(RegistrationStatus, usize)>)
    ensures
        match r {
            Some((v, p)) => dec_reg_status(buf@, pos as int) == Some((v, p as int)),
            None => dec_reg_status(buf@, pos as int) is None,
        },
{
    match read_u8(buf, pos) {
        Some((t, p)) => if t == 0 {
            Some((RegistrationStatus::Pending, p))
        } else if t == 1 {
            Some((RegistrationStatus::Confirmed, p))
        } else if t == 2 {
            Some((RegistrationStatus::Cancelled, p))
        } else if t == 3 {
            Some((RegistrationStatus::WaitingList, p))
        } else {
            None
        },
        None => None,
    }
}

fn read_pay_status(buf: &Vec<u8>, pos: usize) -> (r: Option<(PaymentStatus, usize)>)
    ensures
        match r {
            Some((v, p)) => dec_pay_status(buf@, pos as int) == Some((v, p as int)),
            None => dec_pay_status(buf@, pos as int) is None,
        },
{
    match read_u8(buf, pos) {
        Some((t, p)) => if t == 0 {
            Some((PaymentStatus::Pending, p))
        } else if t == 1 {
            Some((PaymentStatus::Completed, p))
        } else if t == 2 {
            Some((PaymentStatus::Failed, p))
        } else if t == 3 {
            Some((PaymentStatus::Refunded, p))
        } else {
            None
        },
        None => None,
    }
}

// ---------------------------------------------------------------------------
// User
// ---------------------------------------------------------------------------

/// Byte encoding of a user.
pub open spec fn spec_encode_user(u: UserView) -> Seq<u8> {
    enc_u8(TAG_USER) + (enc_u128(u.id) + (enc_str(u.email) + (enc_str(u.password_hash) + (enc_str(
        u.first_name,
    ) + (enc_str(u.last_name) + (enc_opt_str(u.phone) + (enc_u8(experience_tag(u.dance_experience))
        + (enc_i64(u.created_at) + (enc_i64(u.updated_at) + enc_bool(u.is_active))))))))))
}

/// The user denoted by `b`, when `b` is exactly an encoded user.
pub open spec fn spec_decode_user(b: Seq<u8>) -> Option<UserView> {
    match dec_u8(b, 0) {
        Some((tag, i0)) => if tag == TAG_USER {
            match dec_u128(b, i0) {
                Some((id, i1)) => match dec_str(b, i1) {
                    Some((email, i2)) => match dec_str(b, i2) {
                        Some((password_hash, i3)) => match dec_str(b, i3) {
                            Some((first_name, i4)) => match dec_str(b, i4) {
                                Some((last_name, i5)) => match dec_opt_str(b, i5) {
                                    Some((phone, i6)) => match dec_experience(b, i6) {
                                        Some((dance_experience, i7)) => match dec_i64(b, i7) {
                                            Some((created_at, i8)) => match dec_i64(b, i8) {
                                                Some((updated_at, i9)) => match dec_bool(b, i9) {
                                                    Some((is_active, i10)) => if i10 == b.len() {
                                                        Some(
                                                            UserView {
                                                                id,
                                                                email,
                                                                password_hash,
                                                                first_name,
                                                                last_name,
                                                                phone,
                                                                dance_experience,
                                                                created_at,
                                                                updated_at,
                                                                is_active,
                                                            },
                                                        )
                                                    } else {
                                                        None
                                                    },
                                                    None => None,
                                                },
                                                None => None,
                                            },
                                            None => None,
                                        },
                                        None => None,
                                    },
                                    None => None,
                                },
                                None => None,
                            },
                            None => None,
                        },
                        None => None,
                    },
                    None => None,
                },
                None => None,
            }
        } else {
            None
        },
        None => None,
    }
}

/// Every string field of the user view fits a `u64` byte length.
pub open spec fn user_strs_fit(u: UserView) -> bool {
    &&& str_fits(u.email)
    &&& str_fits(u.password_hash)
    &&& str_fits(u.first_name)
    &&& str_fits(u.last_name)
    &&& (u.phone matches Some(p) ==> str_fits(p))
}

/// Round trip for users: decoding an encoded user gives it back.
#[verifier::rlimit(60)]
pub proof fn lemma_user_round_trip(u: UserView)
    requires
        user_strs_fit(u),
    ensures
        spec_decode_user(spec_encode_user(u)) == Some(u),
{
    let b = spec_encode_user(u);
    let t9 = enc_i64(u.updated_at) + enc_bool(u.is_active);
    let t8 = enc_i64(u.created_at) + t9;
    let t7 = enc_u8(experience_tag(u.dance_experience)) + t8;
    let t6 = enc_opt_str(u.phone) + t7;
    let t5 = enc_str(u.last_name) + t6;
    let t4 = enc_str(u.first_name) + t5;
    let t3 = enc_str(u.password_hash) + t4;
    let t2 = enc_str(u.email) + t3;
    let t1 = enc_u128(u.id) + t2;
    assert(b.subrange(0, b.len() as int) =~= enc_u8(TAG_USER) + t1);
    lemma_dec_u8_of(b, 0, TAG_USER, t1);
    lemma_dec_u128_of(b, 1, u.id, t2);
    let i1: int = 17;
    lemma_dec_str_of(b, i1, u.email, t3);
    let i2 = i1 + enc_str(u.email).len();
    lemma_dec_str_of(b, i2 as int, u.password_hash, t4);
    let i3 = i2 + enc_str(u.password_hash).len();
    lemma_dec_str_of(b, i3 as int, u.first_name, t5);
    let i4 = i3 + enc_str(u.first_name).len();
    lemma_dec_str_of(b, i4 as int, u.last_name, t6);
    let i5 = i4 + enc_str(u.last_name).len();
    assert(b.subrange(i5 as int, b.len() as int) =~= enc_opt_str(u.phone) + t7);
    lemma_dec_opt_str_of(b, i5 as int, u.phone, t7);
    let i6 = i5 + enc_opt_str(u.phone).len();
    assert(b.subrange(i6 as int, b.len() as int) =~= enc_u8(experience_tag(u.dance_experience))
        + t8);
    lemma_dec_experience_of(b, i6 as int, u.dance_experience, t8);
    let i7 = i6 + 1;
    assert(b.subrange(i7 as int, b.len() as int) =~= enc_i64(u.created_at) + t9);
    lemma_dec_i64_of(b, i7 as int, u.created_at, t9);
    let i8 = i7 + 8;
    assert(b.subrange(i8 as int, b.len() as int) =~= enc_i64(u.updated_at) + enc_bool(
        u.is_active,
    ));
    lemma_dec_i64_of(b, i8 as int, u.updated_at, enc_bool(u.is_active));
    let i9 = i8 + 8;
    lemma_dec_bool_of(b, i9 as int, u.is_active, Seq::<u8>::empty());
    let i10 = i9 + 1;
    assert(b.subrange(i10 as int, b.len() as int) == Seq::<u8>::empty());
    assert(i10 == b.len());
}

/// Encodes a user for storage.
#[verifier::rlimit(100)]
pub fn encode_user(u: &User) -> (r: Vec<u8>)
    ensures
        r@ == spec_encode_user(u@),
{
    let mut out: Vec<u8> = Vec::new();
    write_u8(&mut out, TAG_USER);
    write_u128(&mut out, u.id);
    write_str(&mut out, u.email.as_str());
    write_str(&mut out, u.password_hash.as_str());
    write_str(&mut out, u.first_name.as_str());
    write_str(&mut out, u.last_name.as_str());
    write_opt_str(&mut out, &u.phone);
    write_u8(&mut out, experience_tag_exec(u.dance_experience));
    write_i64(&mut out, u.created_at);
    write_i64(&mut out, u.updated_at);
    write_bool(&mut out, u.is_active);
    proof {
        assert(out@ =~= spec_encode_user(u@));
    }
    out
}

/// Tag byte of an experience level, mirroring [`experience_tag`].
fn experience_tag_exec(e: DanceExperience) -> (r: u8)
    ensures
        r == experience_tag(e),
{
    match e {
        DanceExperience::Beginner => 0,
        DanceExperience::Intermediate => 1,
        DanceExperience::Advanced => 2,
        DanceExperience::Professional => 3,
    }
}

/// Decodes a stored user, mirroring [`spec_decode_user`]; bytes that are not
/// exactly an encoded user give a decode error.
pub fn decode_user(buf: &Vec<u8>) -> (r: Result<User, DbError>)
    ensures
        r matches Ok(u) ==> spec_decode_user(buf@) == Some(u@),
        r matches Err(e) ==> e == DbError::Decode && spec_decode_user(buf@) is None,
{
    let tag = match read_u8(buf, 0) {
        Some(v) => v,
        None => {
            return Err(DbError::Decode);
        },
    };
    if tag.0 != TAG_USER {
        return Err(DbError::Decode);
    }
    let id = match read_u128(buf, tag.1) {
        Some(v) => v,
        None => {
            return Err(DbError::Decode);
        },
    };
    let email = match read_str(buf, id.1) {
        Some(v) => v,
        None => {
            return Err(DbError::Decode);
        },
    };
    let password_hash = match read_str(buf, email.1) {
        Some(v) => v,
        None => {
            return Err(DbError::Decode);
        },
    };
    let first_name = match read_str(buf, password_hash.1) {
        Some(v) => v,
        None => {
            return Err(DbError::Decode);
        },
    };
    let last_name = match read_str(buf, first_name.1) {
        Some(v) => v,
        None => {
            return Err(DbError::Decode);
        },
    };
    let phone = match read_opt_str(buf, last_name.1) {
        Some(v) => v,
        None => {
            return Err(DbError::Decode);
        },
    };
    let dance_experience = match read_experience(buf, phone.1) {
        Some(v) => v,
        None => {
            return Err(DbError::Decode);
        },
    };
    let created_at = match read_i64(buf, dance_experience.1) {
        Some(v) => v,
        None => {
            return Err(DbError::Decode);
        },
    };
    let updated_at = match read_i64(buf, created_at.1) {
        Some(v) => v,
        None => {
            return Err(DbError::Decode);
        },
    };
    let is_active = match read_bool(buf, updated_at.1) {
        Some(v) => v,
        None => {
            return Err(DbError::Decode);
        },
    };
    if is_active.1 != buf.len() {
        return Err(DbError::Decode);
    }
    Ok(
        User {
            id: id.0,
            email: email.0,
            password_hash: password_hash.0,
            first_name: first_name.0,
            last_name: last_name.0,
            phone: phone.0,
            dance_experience: dance_experience.0,
            created_at: created_at.0,
            updated_at: updated_at.0,
            is_active: is_active.0,
        },
    )
}

/// Tag byte of an event type, mirroring [`event_type_tag`].
fn event_type_tag_exec(e: EventType) -> (r: u8)
    ensures
        r == event_type_tag(e),
{
    match e {
        EventType::Workshop => 0,
        EventType::Festival => 1,
        EventType::Intensive => 2,
        EventType::Social => 3,
        EventType::Competition => 4,
    }
}

/// Tag byte of a registration status, mirroring [`reg_status_tag`].
fn reg_status_tag_exec(e: RegistrationStatus) -> (r: u8)
    ensures
        r == reg_status_tag(e),
{
    match e {
        RegistrationStatus::Pending => 0,
        RegistrationStatus::Confirmed => 1,
        RegistrationStatus::Cancelled => 2,
        RegistrationStatus::WaitingList => 3,
    }
}

/// Tag byte of a payment status, mirroring [`pay_status_tag`].
fn pay_status_tag_exec(e: PaymentStatus) -> (r: u8)
    ensures
        r == pay_status_tag(e),
{
    match e {
        PaymentStatus::Pending => 0,
        PaymentStatus::Completed => 1,
        PaymentStatus::Failed => 2,
        PaymentStatus::Refunded => 3,
    }
}

// ---------------------------------------------------------------------------
// Venue
// ---------------------------------------------------------------------------

/// Byte encoding of a venue.
pub open spec fn spec_encode_venue(v: VenueView) -> Seq<u8> {
    enc_u8(TAG_VENUE) + (enc_u128(v.id) + (enc_str(v.name) + (enc_str(v.address) + (enc_u32(v.capacity) + (enc_opt_str(v.description))))))
}

/// The venue denoted by `b`, when `b` is exactly an encoded venue.
pub open spec fn spec_decode_venue(b: Seq<u8>) -> Option<VenueView> {
    match dec_u8(b, 0) {
        Some((tag, p0)) => if tag == TAG_VENUE {
            match dec_u128(b, p0) {
                Some((f_id, p1)) =>
                match dec_str(b, p1) {
                    Some((f_name, p2)) =>
                    match dec_str(b, p2) {
                        Some((f_address, p3)) =>
                        match dec_u32(b, p3) {
                            Some((f_capacity, p4)) =>
                            match dec_opt_str(b, p4) {
                                Some((f_description, p5)) =>
                                if p5 == b.len() {
                                    Some(VenueView {
                                        id: f_id,
                                        name: f_name,
                                        address: f_address,
                                        capacity: f_capacity,
                                        description: f_description,
                                    })
                                } else {
                                    None
                                },
                                None => None,
                            },
                            None => None,
                        },
                        None => None,
                    },
                    None => None,
                },
                None => None,
            }
        } else {
            None
        },
        None => None,
    }
}

/// Every string field of the venue view fits a `u64` byte length.
pub open spec fn venue_strs_fit(v: VenueView) -> bool {
    &&& str_fits(v.name)
    &&& str_fits(v.address)
    &&& (v.description matches Some(s) ==> str_fits(s))
}

/// Round trip for venues: decoding an encoded venue gives it back.
#[verifier::rlimit(60)]
pub proof fn lemma_venue_round_trip(v: VenueView)
    requires
        venue_strs_fit(v),
    ensures
        spec_decode_venue(spec_encode_venue(v)) == Some(v),
{
    let b = spec_encode_venue(v);
    let t4 = enc_opt_str(v.description);
    let t3 = enc_u32(v.capacity) + t4;
    let t2 = enc_str(v.address) + t3;
    let t1 = enc_str(v.name) + t2;
    assert(b.subrange(0, b.len() as int) =~= enc_u8(TAG_VENUE) + (enc_u128(v.id) + t1));
    lemma_dec_u8_of(b, 0, TAG_VENUE, enc_u128(v.id) + t1);
    lemma_dec_u128_of(b, 1, v.id, t1);
    let i1: int = 17;
    lemma_dec_str_of(b, i1 as int, v.name, t2);
    let i2 = i1 + enc_str(v.name).len();
    lemma_dec_str_of(b, i2 as int, v.address, t3);
    let i3 = i2 + enc_str(v.address).len();
    lemma_dec_u32_of(b, i3 as int, v.capacity, t4);
    let i4 = i3 + 4;
    lemma_dec_opt_str_of(b, i4 as int, v.description, Seq::<u8>::empty());
    let i5 = i4 + enc_opt_str(v.description).len();
    assert(i5 == b.len());
}

/// Encodes a venue for storage.
#[verifier::rlimit(100)]
pub fn encode_venue(v: &Venue) -> (r: Vec<u8>)
    ensures
        r@ == spec_encode_venue(v@),
{
    let mut out: Vec<u8> = Vec::new();
    write_u8(&mut out, TAG_VENUE);
    write_u128(&mut out, v.id);
    write_str(&mut out, v.name.as_str());
    write_str(&mut out, v.address.as_str());
    write_u32(&mut out, v.capacity);
    write_opt_str(&mut out, &v.description);
    proof {
        assert(out@ =~= spec_encode_venue(v@));
    }
    out
}

/// Decodes a stored venue, mirroring [`spec_decode_venue`]; bytes that
/// are not exactly an encoded venue give a decode error.
pub fn decode_venue(buf: &Vec<u8>) -> (r: Result<Venue, DbError>)
    ensures
        r matches Ok(v) ==> spec_decode_venue(buf@) == Some(v@),
        r matches Err(e) ==> e == DbError::Decode && spec_decode_venue(buf@) is None,
{
    let tag = match read_u8(buf, 0) {
        Some(v) => v,
        None => {
            return Err(DbError::Decode);
        },
    };
    if tag.0 != TAG_VENUE {
        return Err(DbError::Decode);
    }
    let id = match read_u128(buf, tag.1) {
        Some(v) => v,
        None => {
            return Err(DbError::Decode);
        },
    };
    let name = match read_str(buf, id.1) {
        Some(v) => v,
        None => {
            return Err(DbError::Decode);
        },
    };
    let address = match read_str(buf, name.1) {
        Some(v) => v,
        None => {
            return Err(DbError::Decode);
        },
    };
    let capacity = match read_u32(buf, address.1) {
        Some(v) => v,
        None => {
            return Err(DbError::Decode);
        },
    };
    let description = match read_opt_str(buf, capacity.1) {
        Some(v) => v,
        None => {
            return Err(DbError::Decode);
        },
    };
    if description.1 != buf.len() {
        return Err(DbError::Decode);
    }
    Ok(
        Venue {
            id: id.0,
            name: name.0,
            address: address.0,
            capacity: capacity.0,
            description: description.0,
        },
    )
}

// ---------------------------------------------------------------------------
// Package
// ---------------------------------------------------------------------------

/// Byte encoding of a package.
pub open spec fn spec_encode_package(v: PackageView) -> Seq<u8> {
    enc_u8(TAG_PACKAGE) + (enc_u128(v.id) + (enc_str(v.name) + (enc_str(v.description) + (enc_u64(v.price) + (enc_u32(v.duration_days) + (enc_u32(v.max_participants)))))))
}

/// The package denoted by `b`, when `b` is exactly an encoded package.
pub open spec fn spec_decode_package(b: Seq<u8>) -> Option<PackageView> {
    match dec_u8(b, 0) {
        Some((tag, p0)) => if tag == TAG_PACKAGE {
            match dec_u128(b, p0) {
                Some((f_id, p1)) =>
                match dec_str(b, p1) {
                    Some((f_name, p2)) =>
                    match dec_str(b, p2) {
                        Some((f_description, p3)) =>
                        match dec_u64(b, p3) {
                            Some((f_price, p4)) =>
                            match dec_u32(b, p4) {
                                Some((f_duration_days, p5)) =>
                                match dec_u32(b, p5) {
                                    Some((f_max_participants, p6)) =>
                                    if p6 == b.len() {
                                        Some(PackageView {
                                            id: f_id,
                                            name: f_name,
                                            description: f_description,
                                            price: f_price,
                                            duration_days: f_duration_days,
                                            max_participants: f_max_participants,
                                        })
                                    } else {
                                        None
                                    },
                                    None => None,
                                },
                                None => None,
                            },
                            None => None,
                        },
                        None => None,
                    },
                    None => None,
                },
                None => None,
            }
        } else {
            None
        },
        None => None,
    }
}

/// Every string field of the package view fits a `u64` byte length.
pub open spec fn package_strs_fit(v: PackageView) -> bool {
    &&& str_fits(v.name)
    &&& str_fits(v.description)
}

/// Round trip for packages: decoding an encoded package gives it back.
#[verifier::rlimit(60)]
pub proof fn lemma_package_round_trip(v: PackageView)
    requires
        package_strs_fit(v),
    ensures
        spec_decode_package(spec_encode_package(v)) == Some(v),
{
    let b = spec_encode_package(v);
    let t5 = enc_u32(v.max_participants);
    let t4 = enc_u32(v.duration_days) + t5;
    let t3 = enc_u64(v.price) + t4;
    let t2 = enc_str(v.description) + t3;
    let t1 = enc_str(v.name) + t2;
    assert(b.subrange(0, b.len() as int) =~= enc_u8(TAG_PACKAGE) + (enc_u128(v.id) + t1));
    lemma_dec_u8_of(b, 0, TAG_PACKAGE, enc_u128(v.id) + t1);
    lemma_dec_u128_of(b, 1, v.id, t1);
    let i1: int = 17;
    lemma_dec_str_of(b, i1 as int, v.name, t2);
    let i2 = i1 + enc_str(v.name).len();
    lemma_dec_str_of(b, i2 as int, v.description, t3);
    let i3 = i2 + enc_str(v.description).len();
    lemma_dec_u64_of(b, i3 as int, v.price, t4);
    let i4 = i3 + 8;
    lemma_dec_u32_of(b, i4 as int, v.duration_days, t5);
    let i5 = i4 + 4;
    lemma_dec_u32_of(b, i5 as int, v.max_participants, Seq::<u8>::empty());
    let i6 = i5 + 4;
    assert(i6 == b.len());
}

/// Encodes a package for storage.
#[verifier::rlimit(100)]
pub fn encode_package(v: &Package) -> (r: Vec<u8>)
    ensures
        r@ == spec_encode_package(v@),
{
    let mut out: Vec<u8> = Vec::new();
    write_u8(&mut out, TAG_PACKAGE);
    write_u128(&mut out, v.id);
    write_str(&mut out, v.name.as_str());
    write_str(&mut out, v.description.as_str());
    write_u64(&mut out, v.price);
    write_u32(&mut out, v.duration_days);
    write_u32(&mut out, v.max_participants);
    proof {
        assert(out@ =~= spec_encode_package(v@));
    }
    out
}

/// Decodes a stored package, mirroring [`spec_decode_package`]; bytes that
/// are not exactly an encoded package give a decode error.
pub fn decode_package(buf: &Vec<u8>) -> (r: Result<Package, DbError>)
    ensures
        r matches Ok(v) ==> spec_decode_package(buf@) == Some(v@),
        r matches Err(e) ==> e == DbError::Decode && spec_decode_package(buf@) is None,
{
    let tag = match read_u8(buf, 0) {
        Some(v) => v,
        None => {
            return Err(DbError::Decode);
        },
    };
    if tag.0 != TAG_PACKAGE {
        return Err(DbError::Decode);
    }
    let id = match read_u128(buf, tag.1) {
        Some(v) => v,
        None => {
            return Err(DbError::Decode);
        },
    };
    let name = match read_str(buf, id.1) {
        Some(v) => v,
        None => {
            return Err(DbError::Decode);
        },
    };
    let description = match read_str(buf, name.1) {
        Some(v) => v,
        None => {
            return Err(DbError::Decode);
        },
    };
    let price = match read_u64(buf, description.1) {
        Some(v) => v,
        None => {
            return Err(DbError::Decode);
        },
    };
    let duration_days = match read_u32(buf, price.1) {
        Some(v) => v,
        None => {
            return Err(DbError::Decode);
        },
    };
    let max_participants = match read_u32(buf, duration_days.1) {
        Some(v) => v,
        None => {
            return Err(DbError::Decode);
        },
    };
    if max_participants.1 != buf.len() {
        return Err(DbError::Decode);
    }
    Ok(
        Package {
            id: id.0,
            name: name.0,
            description: description.0,
            price: price.0,
            duration_days: duration_days.0,
            max_participants: max_participants.0,
        },
    )
}

// ---------------------------------------------------------------------------
// Event
// ---------------------------------------------------------------------------

/// Byte encoding of a event.
pub open spec fn spec_encode_event(v: EventView) -> Seq<u8> {
    enc_u8(TAG_EVENT) + (enc_u128(v.id) + (enc_str(v.title) + (enc_str(v.description) + (enc_i64(v.start_date) + (enc_i64(v.end_date) + (enc_u128(v.venue_id) + (enc_u32(v.max_participants) + (enc_u32(v.current_participants) + (enc_u64(v.price) + (enc_u8(event_type_tag(v.event_type))))))))))))
}

/// The event denoted by `b`, when `b` is exactly an encoded event.
pub open spec fn spec_decode_event(b: Seq<u8>) -> Option<EventView> {
    match dec_u8(b, 0) {
        Some((tag, p0)) => if tag == TAG_EVENT {
            match dec_u128(b, p0) {
                Some((f_id, p1)) =>
                match dec_str(b, p1) {
                    Some((f_title, p2)) =>
                    match dec_str(b, p2) {
                        Some((f_description, p3)) =>
                        match dec_i64(b, p3) {
                            Some((f_start_date, p4)) =>
                            match dec_i64(b, p4) {
                                Some((f_end_date, p5)) =>
                                match dec_u128(b, p5) {
                                    Some((f_venue_id, p6)) =>
                                    match dec_u32(b, p6) {
                                        Some((f_max_participants, p7)) =>
                                        match dec_u32(b, p7) {
                                            Some((f_current_participants, p8)) =>
                                            match dec_u64(b, p8) {
                                                Some((f_price, p9)) =>
                                                match dec_event_type(b, p9) {
                                                    Some((f_event_type, p10)) =>
                                                    if p10 == b.len() {
                                                        Some(EventView {
                                                            id: f_id,
                                                            title: f_title,
                                                            description: f_description,
                                                            start_date: f_start_date,
                                                            end_date: f_end_date,
                                                            venue_id: f_venue_id,
                                                            max_participants: f_max_participants,
                                                            current_participants: f_current_participants,
                                                            price: f_price,
                                                            event_type: f_event_type,
                                                        })
                                                    } else {
                                                        None
                                                    },
                                                    None => None,
                                                },
                                                None => None,
                                            },
                                            None => None,
                                        },
                                        None => None,
                                    },
                                    None => None,
                                },
                                None => None,
                            },
                            None => None,
                        },
                        None => None,
                    },
                    None => None,
                },
                None => None,
            }
        } else {
            None
        },
        None => None,
    }
}

/// Every string field of the event view fits a `u64` byte length.
pub open spec fn event_strs_fit(v: EventView) -> bool {
    &&& str_fits(v.title)
    &&& str_fits(v.description)
}

/// Round trip for events: decoding an encoded event gives it back.
#[verifier::rlimit(60)]
pub proof fn lemma_event_round_trip(v: EventView)
    requires
        event_strs_fit(v),
    ensures
        spec_decode_event(spec_encode_event(v)) == Some(v),
{
    let b = spec_encode_event(v);
    let t9 = enc_u8(event_type_tag(v.event_type));
    let t8 = enc_u64(v.price) + t9;
    let t7 = enc_u32(v.current_participants) + t8;
    let t6 = enc_u32(v.max_participants) + t7;
    let t5 = enc_u128(v.venue_id) + t6;
    let t4 = enc_i64(v.end_date) + t5;
    let t3 = enc_i64(v.start_date) + t4;
    let t2 = enc_str(v.description) + t3;
    let t1 = enc_str(v.title) + t2;
    assert(b.subrange(0, b.len() as int) =~= enc_u8(TAG_EVENT) + (enc_u128(v.id) + t1));
    lemma_dec_u8_of(b, 0, TAG_EVENT, enc_u128(v.id) + t1);
    lemma_dec_u128_of(b, 1, v.id, t1);
    let i1: int = 17;
    lemma_dec_str_of(b, i1 as int, v.title, t2);
    let i2 = i1 + enc_str(v.title).len();
    lemma_dec_str_of(b, i2 as int, v.description, t3);
    let i3 = i2 + enc_str(v.description).len();
    lemma_dec_i64_of(b, i3 as int, v.start_date, t4);
    let i4 = i3 + 8;
    lemma_dec_i64_of(b, i4 as int, v.end_date, t5);
    let i5 = i4 + 8;
    lemma_dec_u128_of(b, i5 as int, v.venue_id, t6);
    let i6 = i5 + 16;
    lemma_dec_u32_of(b, i6 as int, v.max_participants, t7);
    let i7 = i6 + 4;
    lemma_dec_u32_of(b, i7 as int, v.current_participants, t8);
    let i8 = i7 + 4;
    lemma_dec_u64_of(b, i8 as int, v.price, t9);
    let i9 = i8 + 8;
    lemma_dec_event_type_of(b, i9 as int, v.event_type, Seq::<u8>::empty());
    let i10 = i9 + 1;
    assert(i10 == b.len());
}

/// Encodes a event for storage.
#[verifier::rlimit(100)]
pub fn encode_event(v: &Event) -> (r: Vec<u8>)
    ensures
        r@ == spec_encode_event(v@),
{
    let mut out: Vec<u8> = Vec::new();
    write_u8(&mut out, TAG_EVENT);
    write_u128(&mut out, v.id);
    write_str(&mut out, v.title.as_str());
    write_str(&mut out, v.description.as_str());
    write_i64(&mut out, v.start_date);
    write_i64(&mut out, v.end_date);
    write_u128(&mut out, v.venue_id);
    write_u32(&mut out, v.max_participants);
    write_u32(&mut out, v.current_participants);
    write_u64(&mut out, v.price);
    write_u8(&mut out, event_type_tag_exec(v.event_type));
    proof {
        assert(out@ =~= spec_encode_event(v@));
    }
    out
}

/// Decodes a stored event, mirroring [`spec_decode_event`]; bytes that
/// are not exactly an encoded event give a decode error.
pub fn decode_event(buf: &Vec<u8>) -> (r: Result<Event, DbError>)
    ensures
        r matches Ok(v) ==> spec_decode_event(buf@) == Some(v@),
        r matches Err(e) ==> e == DbError::Decode && spec_decode_event(buf@) is None,
{
    let tag = match read_u8(buf, 0) {
        Some(v) => v,
        None => {
            return Err(DbError::Decode);
        },
    };
    if tag.0 != TAG_EVENT {
        return Err(DbError::Decode);
    }
    let id = match read_u128(buf, tag.1) {
        Some(v) => v,
        None => {
            return Err(DbError::Decode);
        },
    };
    let title = match read_str(buf, id.1) {
        Some(v) => v,
        None => {
            return Err(DbError::Decode);
        },
    };
    let description = match read_str(buf, title.1) {
        Some(v) => v,
        None => {
            return Err(DbError::Decode);
        },
    };
    let start_date = match read_i64(buf, description.1) {
        Some(v) => v,
        None => {
            return Err(DbError::Decode);
        },
    };
    let end_date = match read_i64(buf, start_date.1) {
        Some(v) => v,
        None => {
            return Err(DbError::Decode);
        },
    };
    let venue_id = match read_u128(buf, end_date.1) {
        Some(v) => v,
        None => {
            return Err(DbError::Decode);
        },
    };
    let max_participants = match read_u32(buf, venue_id.1) {
        Some(v) => v,
        None => {
            return Err(DbError::Decode);
        },
    };
    let current_participants = match read_u32(buf, max_participants.1) {
        Some(v) => v,
        None => {
            return Err(DbError::Decode);
        },
    };
    let price = match read_u64(buf, current_participants.1) {
        Some(v) => v,
        None => {
            return Err(DbError::Decode);
        },
    };
    let event_type = match read_event_type(buf, price.1) {
        Some(v) => v,
        None => {
            return Err(DbError::Decode);
        },
    };
    if event_type.1 != buf.len() {
        return Err(DbError::Decode);
    }
    Ok(
        Event {
            id: id.0,
            title: title.0,
            description: description.0,
            start_date: start_date.0,
            end_date: end_date.0,
            venue_id: venue_id.0,
            max_participants: max_participants.0,
            current_participants: current_participants.0,
            price: price.0,
            event_type: event_type.0,
        },
    )
}

// ---------------------------------------------------------------------------
// Registration
// ---------------------------------------------------------------------------

/// Byte encoding of a registration.
pub open spec fn spec_encode_registration(v: RegistrationView) -> Seq<u8> {
    enc_u8(TAG_REGISTRATION) + (enc_u128(v.id) + (enc_u128(v.user_id) + (enc_opt_id(v.event_id) + (enc_opt_id(v.package_id) + (enc_u8(reg_status_tag(v.status)) + (enc_u8(pay_status_tag(v.payment_status)) + (enc_i64(v.created_at) + (enc_i64(v.updated_at) + (enc_u64(v.amount_paid))))))))))
}

/// The registration denoted by `b`, when `b` is exactly an encoded registration.
pub open spec fn spec_decode_registration(b: Seq<u8>) -> Option<RegistrationView> {
    match dec_u8(b, 0) {
        Some((tag, p0)) => if tag == TAG_REGISTRATION {
            match dec_u128(b, p0) {
                Some((f_id, p1)) =>
                match dec_u128(b, p1) {
                    Some((f_user_id, p2)) =>
                    match dec_opt_id(b, p2) {
                        Some((f_event_id, p3)) =>
                        match dec_opt_id(b, p3) {
                            Some((f_package_id, p4)) =>
                            match dec_reg_status(b, p4) {
                                Some((f_status, p5)) =>
                                match dec_pay_status(b, p5) {
                                    Some((f_payment_status, p6)) =>
                                    match dec_i64(b, p6) {
                                        Some((f_created_at, p7)) =>
                                        match dec_i64(b, p7) {
                                            Some((f_updated_at, p8)) =>
                                            match dec_u64(b, p8) {
                                                Some((f_amount_paid, p9)) =>
                                                if p9 == b.len() {
                                                    Some(RegistrationView {
                                                        id: f_id,
                                                        user_id: f_user_id,
                                                        event_id: f_event_id,
                                                        package_id: f_package_id,
                                                        status: f_status,
                                                        payment_status: f_payment_status,
                                                        created_at: f_created_at,
                                                        updated_at: f_updated_at,
                                                        amount_paid: f_amount_paid,
                                                    })
                                                } else {
                                                    None
                                                },
                                                None => None,
                                            },
                                            None => None,
                                        },
                                        None => None,
                                    },
                                    None => None,
                                },
                                None => None,
                            },
                            None => None,
                        },
                        None => None,
                    },
                    None => None,
                },
                None => None,
            }
        } else {
            None
        },
        None => None,
    }
}

/// Every string field of the registration view fits a `u64` byte length.
pub open spec fn registration_strs_fit(v: RegistrationView) -> bool {
    true
}

/// Round trip for registrations: decoding an encoded registration gives it back.
#[verifier::rlimit(60)]
pub proof fn lemma_registration_round_trip(v: RegistrationView)
    requires
        registration_strs_fit(v),
    ensures
        spec_decode_registration(spec_encode_registration(v)) == Some(v),
{
    let b = spec_encode_registration(v);
    let t8 = enc_u64(v.amount_paid);
    let t7 = enc_i64(v.updated_at) + t8;
    let t6 = enc_i64(v.created_at) + t7;
    let t5 = enc_u8(pay_status_tag(v.payment_status)) + t6;
    let t4 = enc_u8(reg_status_tag(v.status)) + t5;
    let t3 = enc_opt_id(v.package_id) + t4;
    let t2 = enc_opt_id(v.event_id) + t3;
    let t1 = enc_u128(v.user_id) + t2;
    assert(b.subrange(0, b.len() as int) =~= enc_u8(TAG_REGISTRATION) + (enc_u128(v.id) + t1));
    lemma_dec_u8_of(b, 0, TAG_REGISTRATION, enc_u128(v.id) + t1);
    lemma_dec_u128_of(b, 1, v.id, t1);
    let i1: int = 17;
    lemma_dec_u128_of(b, i1 as int, v.user_id, t2);
    let i2 = i1 + 16;
    lemma_dec_opt_id_of(b, i2 as int, v.event_id, t3);
    let i3 = i2 + enc_opt_id(v.event_id).len();
    lemma_dec_opt_id_of(b, i3 as int, v.package_id, t4);
    let i4 = i3 + enc_opt_id(v.package_id).len();
    lemma_dec_reg_status_of(b, i4 as int, v.status, t5);
    let i5 = i4 + 1;
    lemma_dec_pay_status_of(b, i5 as int, v.payment_status, t6);
    let i6 = i5 + 1;
    lemma_dec_i64_of(b, i6 as int, v.created_at, t7);
    let i7 = i6 + 8;
    lemma_dec_i64_of(b, i7 as int, v.updated_at, t8);
    let i8 = i7 + 8;
    lemma_dec_u64_of(b, i8 as int, v.amount_paid, Seq::<u8>::empty());
    let i9 = i8 + 8;
    assert(i9 == b.len());
}

/// Encodes a registration for storage.
#[verifier::rlimit(100)]
pub fn encode_registration(v: &Registration) -> (r: Vec<u8>)
    ensures
        r@ == spec_encode_registration(v@),
{
    let mut out: Vec<u8> = Vec::new();
    write_u8(&mut out, TAG_REGISTRATION);
    write_u128(&mut out, v.id);
    write_u128(&mut out, v.user_id);
    write_opt_id(&mut out, &v.event_id);
    write_opt_id(&mut out, &v.package_id);
    write_u8(&mut out, reg_status_tag_exec(v.status));
    write_u8(&mut out, pay_status_tag_exec(v.payment_status));
    write_i64(&mut out, v.created_at);
    write_i64(&mut out, v.updated_at);
    write_u64(&mut out, v.amount_paid);
    proof {
        assert(out@ =~= spec_encode_registration(v@));
    }
    out
}

/// Decodes a stored registration, mirroring [`spec_decode_registration`]; bytes that
/// are not exactly an encoded registration give a decode error.
pub fn decode_registration(buf: &Vec<u8>) -> (r: Result<Registration, DbError>)
    ensures
        r matches Ok(v) ==> spec_decode_registration(buf@) == Some(v@),
        r matches Err(e) ==> e == DbError::Decode && spec_decode_registration(buf@) is None,
{
    let tag = match read_u8(buf, 0) {
        Some(v) => v,
        None => {
            return Err(DbError::Decode);
        },
    };
    if tag.0 != TAG_REGISTRATION {
        return Err(DbError::Decode);
    }
    let id = match read_u128(buf, tag.1) {
        Some(v) => v,
        None => {
            return Err(DbError::Decode);
        },
    };
    let user_id = match read_u128(buf, id.1) {
        Some(v) => v,
        None => {
            return Err(DbError::Decode);
        },
    };
    let event_id = match read_opt_id(buf, user_id.1) {
        Some(v) => v,
        None => {
            return Err(DbError::Decode);
        },
    };
    let package_id = match read_opt_id(buf, event_id.1) {
        Some(v) => v,
        None => {
            return Err(DbError::Decode);
        },
    };
    let status = match read_reg_status(buf, package_id.1) {
        Some(v) => v,
        None => {
            return Err(DbError::Decode);
        },
    };
    let payment_status = match read_pay_status(buf, status.1) {
        Some(v) => v,
        None => {
            return Err(DbError::Decode);
        },
    };
    let created_at = match read_i64(buf, payment_status.1) {
        Some(v) => v,
        None => {
            return Err(DbError::Decode);
        },
    };
    let updated_at = match read_i64(buf, created_at.1) {
        Some(v) => v,
        None => {
            return Err(DbError::Decode);
        },
    };
    let amount_paid = match read_u64(buf, updated_at.1) {
        Some(v) => v,
        None => {
            return Err(DbError::Decode);
        },
    };
    if amount_paid.1 != buf.len() {
        return Err(DbError::Decode);
    }
    Ok(
        Registration {
            id: id.0,
            user_id: user_id.0,
            event_id: event_id.0,
            package_id: package_id.0,
            status: status.0,
            payment_status: payment_status.0,
            created_at: created_at.0,
            updated_at: updated_at.0,
            amount_paid: amount_paid.0,
        },
    )
}

} // verus!
