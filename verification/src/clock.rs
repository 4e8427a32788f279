//! The current time and fresh document identifiers.
use vstd::prelude::*;
use std::time::{Duration, SystemTime, SystemTimeError, UNIX_EPOCH};
use uuid::Uuid;

verus! {

#[verifier::external_type_specification]
#[verifier::external_body]
pub struct ExSystemTime(SystemTime);

#[verifier::external_type_specification]
#[verifier::external_body]
pub struct ExSystemTimeError(SystemTimeError);

/// `SystemTime::now`: the current time of the system clock (nothing is
/// promised of it).
#[verifier::external_body]
fn system_time_now() -> SystemTime {
    SystemTime::now()
}

/// `UNIX_EPOCH`: 1970-01-01 00:00:00 UTC.
#[verifier::external_body]
fn unix_epoch() -> SystemTime {
    UNIX_EPOCH
}

/// `SystemTime::duration_since`: how long after `earlier` the time `t` is;
/// an error when `t` is before it.
#[verifier::external_body]
fn duration_since(t: &SystemTime, earlier: SystemTime) -> Result<Duration, SystemTimeError> {
    t.duration_since(earlier)
}

/// `Duration::as_secs`: the whole seconds of a duration.
#[verifier::external_body]
fn duration_as_secs(d: &Duration) -> u64 {
    d.as_secs()
}

/// `Uuid::new_v4`: a random UUID of version 4 and the RFC 4122 variant,
/// given by its 16 bytes: the high half of byte 6 is the version, 4, and the
/// two high bits of byte 8 are `10`.  Nothing more is promised of the bytes.
#[verifier::external_body]
fn uuid_new_v4() -> (r: [u8; 16])
    ensures
        r@[6] / 16 == 4,
        r@[8] / 64 == 2,
{
    *Uuid::new_v4().as_bytes()
}

/// Whether the hyphenated text `s` is that of a version 4 UUID of the
/// RFC 4122 variant: the version digit (position 14) is `4` and the variant
/// digit (position 19) is `8`, `9`, `a` or `b`.
pub open spec fn is_uuid_v4_text(s: Seq<char>) -> bool {
    &&& s[14] == '4'
    &&& (s[19] == '8' || s[19] == '9' || s[19] == 'a' || s[19] == 'b')
}

/// Whether `c` is a lower-case hexadecimal digit.
pub open spec fn is_lower_hex(c: char) -> bool {
    ('0' <= c <= '9') || ('a' <= c <= 'f')
}

/// Whether `s` is a UUID in its hyphenated form: 36 characters, hyphens at
/// positions 8, 13, 18 and 23, lower-case hexadecimal digits elsewhere.
pub open spec fn is_hyphenated_uuid(s: Seq<char>) -> bool {
    &&& s.len() == 36
    &&& forall|i: int|
        0 <= i < 36 ==> (if i == 8 || i == 13 || i == 18 || i == 23 {
            s[i] == '-'
        } else {
            is_lower_hex(#[trigger] s[i])
        })
}

/// The lower-case hexadecimal digit of `d` (0 to 15).
pub open spec fn hex_digit(d: int) -> char {
    if d == 0 {
        '0'
    } else if d == 1 {
        '1'
    } else if d == 2 {
        '2'
    } else if d == 3 {
        '3'
    } else if d == 4 {
        '4'
    } else if d == 5 {
        '5'
    } else if d == 6 {
        '6'
    } else if d == 7 {
        '7'
    } else if d == 8 {
        '8'
    } else if d == 9 {
        '9'
    } else if d == 10 {
        'a'
    } else if d == 11 {
        'b'
    } else if d == 12 {
        'c'
    } else if d == 13 {
        'd'
    } else if d == 14 {
        'e'
    } else {
        'f'
    }
}

/// Half-byte `j` of `bytes`, high half first.
pub open spec fn nibble(bytes: Seq<u8>, j: int) -> int {
    if j % 2 == 0 {
        (bytes[j / 2] / 16) as int
    } else {
        (bytes[j / 2] % 16) as int
    }
}

/// How many hyphens of the hyphenated form come before position `i`.
pub open spec fn hyphens_before(i: int) -> int {
    (if i > 8 { 1int } else { 0 }) + (if i > 13 { 1int } else { 0 }) + (if i > 18 { 1int } else { 0 }) + (if i
        > 23 { 1int } else { 0 })
}

/// The hyphenated lower-case text of a UUID's 16 bytes: 32 hexadecimal
/// digits, high half of each byte first, in groups of 8, 4, 4, 4 and 12
/// separated by hyphens.
pub open spec fn uuid_text(bytes: Seq<u8>) -> Seq<char> {
    Seq::new(
        36,
        |i: int|
            if i == 8 || i == 13 || i == 18 || i == 23 {
                '-'
            } else {
                hex_digit(nibble(bytes, i - hyphens_before(i)))
            },
    )
}

/// `Uuid`'s `to_string` on the UUID with the bytes `bytes`: its hyphenated
/// lower-case text.
#[verifier::external_body]
fn uuid_to_string(bytes: [u8; 16]) -> (r: String)
    ensures
        r@ == uuid_text(bytes@),
{
    Uuid::from_bytes(bytes).to_string()
}

/// The current time in whole seconds since the Unix epoch (0 if the system
/// clock reads a time before the epoch).
pub fn now_secs() -> u64 {
    let now = system_time_now();
    match duration_since(&now, unix_epoch()) {
        Ok(d) => duration_as_secs(&d),
        Err(_) => 0,
    }
}

/// A fresh random document identifier, in the hyphenated UUID form.
pub fn new_document_id() -> (r: String)
    ensures
        is_hyphenated_uuid(r@),
        is_uuid_v4_text(r@),
{
    let u = uuid_new_v4();
    let r = uuid_to_string(u);
    proof {
        let b = u@;
        assert forall|i: int| 0 <= i < 36 && !(i == 8 || i == 13 || i == 18 || i == 23) implies is_lower_hex(
            #[trigger] r@[i],
        ) by {
            let j = i - hyphens_before(i);
            assert(0 <= j < 32);
            assert(0 <= nibble(b, j) < 16);
        }
        assert(r@[14] == hex_digit(nibble(b, 12)));
        assert(r@[19] == hex_digit(nibble(b, 16)));
    }
    r
}

} // verus!
