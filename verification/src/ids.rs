//! Member ids.

use vstd::prelude::*;

verus! {

/// Whether `c` is a lower-case hexadecimal digit.
pub open spec fn hex_digit(c: char) -> bool {
    ('0' <= c && c <= '9') || ('a' <= c && c <= 'f')
}

/// Whether `s` is a version-4 UUID in hyphenated lower-case form: 36 characters, hyphens at four
/// places, the version digit a 4, the variant digit one of four, and hexadecimal digits elsewhere.
pub open spec fn uuid_text(s: Seq<char>) -> bool {
    &&& s.len() == 36
    &&& s[14] == '4'
    &&& s[19] == '8' || s[19] == '9' || s[19] == 'a' || s[19] == 'b'
    &&& forall|i: int|
        0 <= i < 36 ==> if i == 8 || i == 13 || i == 18 || i == 23 {
            #[trigger] s[i] == '-'
        } else {
            hex_digit(s[i])
        }
}

/// A fresh id: the text of `uuid::Uuid::new_v4`. Its `Display` form is hyphenated lower-case hex
/// and `new_v4` sets the version and the variant; which of those texts comes out is left to chance.
#[verifier::external_body]
pub(crate) fn fresh_uuid() -> (r: String)
    ensures
        uuid_text(r@),
{
    uuid::Uuid::new_v4().to_string()
}

/// The id that a group gives a member: a prefix, a hyphen and a suffix.
pub open spec fn member_id_of(prefix: Seq<char>, suffix: Seq<char>) -> Seq<char> {
    prefix + "-"@ + suffix
}

/// Builds the id that a group gives a member.
pub fn member_id_from(prefix: &str, suffix: &str) -> (r: String)
    ensures
        r@ == member_id_of(prefix@, suffix@),
{
    let mut id = prefix.to_owned();
    id.append("-");
    id.append(suffix);
    id
}

/// Whether `id` is a version-4 UUID: the version bits are a 4, the variant bits a 2.
pub open spec fn random_id(id: u128) -> bool {
    &&& (id >> 76) & 0xf == 4
    &&& (id >> 62) & 0x3 == 2
}

/// A fresh topic id: `uuid::Uuid::new_v4` as the number that `as_u128` gives, the first byte the
/// highest. `new_v4` sets the version and the variant; the other bits are left to chance.
#[verifier::external_body]
pub(crate) fn fresh_topic_id() -> (r: u128)
    ensures
        random_id(r),
{
    uuid::Uuid::new_v4().as_u128()
}

} // verus!
