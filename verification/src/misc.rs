//! Small helpers on text that the reader and the evaluator share.

use vstd::prelude::*;
use vstd::string::StrSliceExecFns;
use vstd::string::StringExecFns;
use vstd::string::StringSliceAdditionalSpecFns;

verus! {

/// Whether a name is a keyword: it begins with a colon.
pub open spec fn is_keyword(name: Seq<char>) -> bool {
    name.len() > 0 && name[0] == ':'
}

/// Whether two texts hold the same characters.
pub fn text_eq(a: &str, b: &str) -> (r: bool)
    ensures
        r == (a@ == b@),
{
    broadcast use vstd::utf8::encode_utf8_decode_utf8;

    let x = a.as_bytes();
    let y = b.as_bytes();
    if x.len() != y.len() {
        return false;
    }
    let mut i: usize = 0;
    while i < x.len()
        invariant
            i <= x.len(),
            x.len() == y.len(),
            x@ == a.spec_bytes(),
            y@ == b.spec_bytes(),
            forall|j: int| 0 <= j < i ==> x@[j] == y@[j],
        decreases x.len() - i,
    {
        if x[i] != y[i] {
            return false;
        }
        i += 1;
    }
    assert(x@ =~= y@);
    assert(vstd::utf8::decode_utf8(vstd::utf8::encode_utf8(a@)) == a@);
    assert(vstd::utf8::decode_utf8(vstd::utf8::encode_utf8(b@)) == b@);
    true
}

/// Whether a text begins with a colon.
pub fn starts_with_colon(s: &str) -> (r: bool)
    ensures
        r == is_keyword(s@),
{
    s.unicode_len() > 0 && s.get_char(0) == ':'
}

/// The text after its first character.
pub(crate) fn without_first(s: &str) -> (r: String)
    requires
        s@.len() > 0,
    ensures
        r@ == s@.skip(1),
{
    let n = s.unicode_len();
    String::from_str(s.substring_char(1, n))
}

/// Whether a list of names holds a name.
pub fn holds_name(names: &Vec<String>, name: &str) -> (r: bool)
    ensures
        r == names.deep_view().contains(name@),
{
    let mut i: usize = 0;
    while i < names.len()
        invariant
            i <= names.len(),
            forall|j: int| 0 <= j < i ==> names.deep_view()[j] != name@,
        decreases names.len() - i,
    {
        if text_eq(names[i].as_str(), name) {
            assert(names.deep_view()[i as int] == name@);
            return true;
        }
        i += 1;
    }
    false
}

/// The character at a position of a text. `ascii` says that the text is
/// known to hold ASCII only, which makes the access direct.
pub(crate) fn char_at(s: &str, ascii: bool, i: usize) -> (c: char)
    requires
        ascii ==> s.is_ascii(),
        i < s@.len(),
    ensures
        c == s@[i as int],
{
    if ascii {
        let b: u8 = s.get_ascii(i);
        b as char
    } else {
        s.get_char(i)
    }
}

/// The part of a text between two positions.
pub(crate) fn slice_of(s: &str, ascii: bool, from: usize, to: usize) -> (r: String)
    requires
        ascii ==> s.is_ascii(),
        from <= to <= s@.len(),
    ensures
        r@ == s@.subrange(from as int, to as int),
{
    if ascii {
        String::from_str(s.substring_ascii(from, to))
    } else {
        String::from_str(s.substring_char(from, to))
    }
}

} // verus!
