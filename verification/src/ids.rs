use rand::Rng;
use vstd::prelude::*;

verus! {

/// Length of the hyphenated text form of a UUID, such as
/// `67e55044-10b1-426f-9247-bb680e5fe0c8`.
pub const UUID_TEXT_LEN: usize = 36;

/// Whether `c` is a lower-case hexadecimal digit.
pub open spec fn is_lower_hex(c: char) -> bool {
    ('0' <= c && c <= '9') || ('a' <= c && c <= 'f')
}

/// Whether `s` is the hyphenated lower-case text of a random (version 4)
/// UUID: groups of 8, 4, 4, 4 and 12 hexadecimal digits separated by `-`,
/// the version digit being `4`.
pub open spec fn is_uuid_v4_text(s: Seq<char>) -> bool {
    &&& s.len() == UUID_TEXT_LEN
    &&& forall|i: int| 0 <= i < s.len() && (i == 8 || i == 13 || i == 18 || i == 23) ==> s[i] == '-'
    &&& forall|i: int|
        0 <= i < s.len() && !(i == 8 || i == 13 || i == 18 || i == 23) ==> is_lower_hex(#[trigger] s[i])
    &&& s[14] == '4'
}

/// Creates a fresh random identifier.
///
/// Calls `uuid::Uuid::new_v4` and converts it with `From<Uuid> for String`,
/// which formats the value in its lower-case hyphenated form (`Display`,
/// through `LowerHex`), with the version digit 4 that `new_v4` sets. The
/// digits themselves are random: nothing more is said of them, so the value
/// is not promised to differ from identifiers made before.
#[verifier::external_body]
pub(crate) fn new_id() -> (id: String)
    ensures
        is_uuid_v4_text(id@),
{
    uuid::Uuid::new_v4().into()
}

/// Draws one random colour channel.
///
/// Calls `rand::rng().random_range(0..=255)`: every `u8` value is in that range,
/// so nothing more can be said of the result.
#[verifier::external_body]
pub(crate) fn random_channel() -> (c: u8) {
    rand::rng().random_range(0..=255u8)
}

} // verus!
