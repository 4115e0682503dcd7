//! Small verified helpers on strings.
use vstd::prelude::*;

verus! {

/// The UTF-8 bytes of a character sequence.
pub open spec fn utf8(s: Seq<char>) -> Seq<u8> {
    vstd::utf8::encode_utf8(s)
}

/// `s` begins with the bytes of `prefix`.
pub open spec fn has_prefix(s: Seq<char>, prefix: Seq<char>) -> bool {
    utf8(prefix).is_prefix_of(utf8(s))
}

/// Whether `s` begins with `prefix`, compared byte by byte.
pub fn starts_with(s: &str, prefix: &str) -> (r: bool)
    ensures
        r == has_prefix(s@, prefix@),
{
    let sb = s.as_bytes();
    let pb = prefix.as_bytes();
    if pb.len() > sb.len() {
        return false;
    }
    let mut i: usize = 0;
    while i < pb.len()
        invariant
            sb@ == utf8(s@),
            pb@ == utf8(prefix@),
            pb@.len() <= sb@.len(),
            0 <= i <= pb@.len(),
            forall|j: int| 0 <= j < i ==> pb@[j] == sb@[j],
        decreases pb@.len() - i,
    {
        if pb[i] != sb[i] {
            return false;
        }
        i = i + 1;
    }
    assert(pb@ =~= sb@.subrange(0, pb@.len() as int));
    true
}

/// Whether `list` holds a string equal to `s`.
pub fn contains_string(list: &Vec<String>, s: &String) -> (r: bool)
    ensures
        r == exists|i: int| 0 <= i < list@.len() && list@[i]@ == s@,
{
    let mut i: usize = 0;
    while i < list.len()
        invariant
            0 <= i <= list@.len(),
            forall|j: int| 0 <= j < i ==> list@[j]@ != s@,
        decreases list@.len() - i,
    {
        if list[i] == *s {
            return true;
        }
        i = i + 1;
    }
    false
}

} // verus!

verus! {

/// A byte with ASCII upper case letters mapped to lower case.
pub open spec fn ascii_lower(b: u8) -> u8 {
    if 65 <= b <= 90 {
        (b + 32) as u8
    } else {
        b
    }
}

/// `a` and `b` are equal up to ASCII case.
pub open spec fn eq_ignore_ascii_case_spec(a: Seq<char>, b: Seq<char>) -> bool {
    &&& utf8(a).len() == utf8(b).len()
    &&& forall|i: int| 0 <= i < utf8(a).len() ==> ascii_lower(#[trigger] utf8(a)[i]) == ascii_lower(utf8(b)[i])
}

fn lower_byte(b: u8) -> (r: u8)
    ensures
        r == ascii_lower(b),
{
    if 65 <= b && b <= 90 {
        b + 32
    } else {
        b
    }
}

/// Whether `a` and `b` are equal up to ASCII case, compared byte by byte.
pub fn eq_ignore_ascii_case(a: &str, b: &str) -> (r: bool)
    ensures
        r == eq_ignore_ascii_case_spec(a@, b@),
{
    let ab = a.as_bytes();
    let bb = b.as_bytes();
    if ab.len() != bb.len() {
        return false;
    }
    let mut i: usize = 0;
    while i < ab.len()
        invariant
            ab@ == utf8(a@),
            bb@ == utf8(b@),
            ab@.len() == bb@.len(),
            0 <= i <= ab@.len(),
            forall|j: int| 0 <= j < i ==> ascii_lower(#[trigger] ab@[j]) == ascii_lower(bb@[j]),
        decreases ab@.len() - i,
    {
        if lower_byte(ab[i]) != lower_byte(bb[i]) {
            return false;
        }
        i = i + 1;
    }
    true
}

} // verus!
