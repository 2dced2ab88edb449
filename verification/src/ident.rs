//! Fresh identifiers.
use vstd::prelude::*;

verus! {

/// A digit of sixteen, in lower case.
pub open spec fn hex_digit(c: char) -> bool {
    '0' <= c <= '9' || 'a' <= c <= 'f'
}

/// Whether a text has the form of a random identifier: 32 digits of sixteen in five
/// groups, the third of which begins with a 4.
pub open spec fn uuid_form(s: Seq<char>) -> bool {
    &&& s.len() == 36
    &&& s[14] == '4'
    &&& forall|i: int|
        0 <= i < 36 ==> (if i == 8 || i == 13 || i == 18 || i == 23 {
            #[trigger] s[i] == '-'
        } else {
            hex_digit(s[i])
        })
}

/// `uuid::Uuid::new_v4`, written out with hyphens. Its form is stated; which
/// identifier it is rests on chance.
#[verifier::external_body]
pub(crate) fn new_uuid() -> (r: String)
    ensures
        uuid_form(r@),
{
    uuid::Uuid::new_v4().to_string()
}

} // verus!
