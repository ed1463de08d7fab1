//! The header of a challenge, which names the file that holds the secret.
use crate::text;
use crate::text::{ascii_lower_of, chars_of, first_word_of, unquote};
use vstd::prelude::*;

verus! {

broadcast use vstd::string::group_string_axioms;

/// What stands before the path in the challenge, in small letters.
pub const BASIC_REALM: &'static str = "basic realm=";

/// A path as it stands in the challenge: it ends at the first white space, and the quotes
/// around it do not belong to it.
pub open spec fn bare_path(s: Seq<char>) -> Seq<char> {
    text::unquoted(text::first_word(s))
}

/// Whether `Basic realm=`, in capitals or in small letters, stands in `header` at index `i`.
pub open spec fn realm_at(header: Seq<char>, i: int) -> bool {
    &&& 0 <= i
    &&& i + BASIC_REALM@.len() <= header.len()
    &&& text::ascii_lower(header.subrange(i, i + BASIC_REALM@.len())) == BASIC_REALM@
}

/// The first index, from `start` on, at which `Basic realm=` stands in `header`.
pub open spec fn first_realm(header: Seq<char>, start: int) -> Option<int>
    decreases header.len() - start + 1,
{
    if start < 0 || start > header.len() {
        None
    } else if realm_at(header, start) {
        Some(start)
    } else {
        first_realm(header, start + 1)
    }
}

/// The path that `header` names: what follows the first `Basic realm=`.
pub open spec fn realm_path(header: Seq<char>) -> Option<Seq<char>> {
    match first_realm(header, 0) {
        Some(i) => Some(bare_path(header.skip(i + BASIC_REALM@.len()))),
        None => None,
    }
}

fn stands_at(header: &Vec<char>, marker: &Vec<char>, at: usize) -> (r: bool)
    requires
        marker@ == BASIC_REALM@,
        at <= header@.len(),
    ensures
        r == realm_at(header@, at as int),
{
    let size: usize = header.len();
    if size - at < marker.len() {
        return false;
    }
    let ghost here = header@.subrange(at as int, at + marker@.len());
    let mut k: usize = 0;
    while k < marker.len()
        invariant
            k <= marker@.len(),
            at + marker@.len() <= size,
            size == header@.len(),
            here == header@.subrange(at as int, at + marker@.len()),
            marker@ == BASIC_REALM@,
            forall|j: int| 0 <= j < k ==> text::ascii_lower(here)[j] == marker@[j],
        decreases marker@.len() - k,
    {
        if ascii_lower_of(header[at + k]) != marker[k] {
            assert(text::ascii_lower(here)[k as int] != marker@[k as int]);
            return false;
        }
        k += 1;
    }
    assert(text::ascii_lower(here) =~= marker@);
    true
}

/// Reads the path out of a challenge such as `Basic realm=/var/lib/arc/secret.key`. The
/// words before the path may be written in capitals or in small letters.
pub fn parse_basic_realm_path(header: &str) -> (r: Option<String>)
    ensures
        text::text_of(r) == realm_path(header@),
{
    let chars: Vec<char> = chars_of(header);
    let marker: Vec<char> = chars_of(BASIC_REALM);
    let mut at: usize = 0;
    loop
        invariant
            at <= chars@.len(),
            chars@ == header@,
            marker@ == BASIC_REALM@,
            first_realm(header@, 0) == first_realm(header@, at as int),
        decreases chars@.len() - at,
    {
        if stands_at(&chars, &marker, at) {
            let end: usize = chars.len();
            let after: &str = header.substring_char(at + marker.len(), end);
            assert(after@ =~= header@.skip(at + BASIC_REALM@.len()));
            return Some(unquote(first_word_of(after)).to_owned());
        }
        if at == chars.len() {
            assert(first_realm(header@, at + 1) is None);
            return None;
        }
        at += 1;
    }
}

}
