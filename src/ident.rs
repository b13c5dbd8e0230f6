use vstd::prelude::*;

verus! {

/// Whether `c` is a digit or a lower-case letter of base sixteen.
pub open spec fn is_lower_hex(c: char) -> bool {
    ('0' <= c && c <= '9') || ('a' <= c && c <= 'f')
}

/// Whether `s` is the hyphenated lower-case text of a random (version 4)
/// UUID: 36 characters, hyphens after the 8th, 12th, 16th and 20th digit,
/// and a `4` as the first digit of the third group.
pub open spec fn is_uuid_text(s: Seq<char>) -> bool {
    &&& s.len() == 36
    &&& forall|i: int|
        0 <= i < 36 ==> if i == 8 || i == 13 || i == 18 || i == 23 {
            #[trigger] s[i] == '-'
        } else {
            is_lower_hex(s[i])
        }
    &&& s[14] == '4'
}

/// The text of the version 4 UUID that uuid builds from sixteen random bytes.
pub uninterp spec fn uuid_text_of(random: Seq<u8>) -> Seq<char>;

/// Relies on uuid's `Builder::from_random_bytes`, which sets the version and
/// variant bits of the given bytes, and on the `Display` of `Uuid`, which
/// writes it hyphenated in lower case.
#[verifier::external_body]
pub(crate) fn uuid_text(random: [u8; 16]) -> (r: String)
    ensures
        r@ == uuid_text_of(random@),
        is_uuid_text(r@),
{
    uuid::Builder::from_random_bytes(random).into_uuid().to_string()
}

} // verus!
