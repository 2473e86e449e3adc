//! The form of application package names.
use vstd::prelude::*;

use crate::text;

verus! {

/// Whether a character can stand in a segment after its first.
pub open spec fn segment_char(c: char) -> bool {
    text::ascii_letter(c) || text::digit(c) || c == '_'
}

/// Whether a segment is well formed: it starts with an ASCII letter, or with an
/// underscore where `lead_underscore` allows that, and goes on with ASCII
/// letters, digits and underscores.
pub open spec fn segment_ok(s: Seq<char>, lead_underscore: bool) -> bool {
    &&& s.len() > 0
    &&& text::ascii_letter(s[0]) || (lead_underscore && s[0] == '_')
    &&& forall|i: int| 1 <= i < s.len() ==> segment_char(#[trigger] s[i])
}

/// Whether a package name is well formed: at least two well-formed segments,
/// with a dot between each two.
pub open spec fn package_ok(s: Seq<char>, lead_underscore: bool) -> bool {
    let segments = text::split(s, '.');
    &&& segments.len() >= 2
    &&& forall|i: int|
        0 <= i < segments.len() ==> segment_ok(#[trigger] segments[i], lead_underscore)
}

fn is_segment(s: &Vec<char>, lead_underscore: bool) -> (r: bool)
    ensures
        r == segment_ok(s@, lead_underscore),
{
    if s.len() == 0 {
        return false;
    }
    if !(text::is_ascii_letter(s[0]) || (lead_underscore && s[0] == '_')) {
        return false;
    }
    let mut i: usize = 1;
    while i < s.len()
        invariant
            1 <= i <= s.len(),
            forall|k: int| 1 <= k < i ==> segment_char(#[trigger] s@[k]),
        decreases s.len() - i,
    {
        if !(text::is_ascii_letter(s[i]) || text::is_digit(s[i]) || s[i] == '_') {
            assert(!segment_char(s@[i as int]));
            return false;
        }
        i += 1;
    }
    true
}

/// Whether a text is a well-formed package name.
pub fn is_package_name(s: &Vec<char>, lead_underscore: bool) -> (r: bool)
    ensures
        r == package_ok(s@, lead_underscore),
{
    let segments = text::split_at_char(s, '.');
    let ghost all = text::split(s@, '.');
    let mut i: usize = 0;
    while i < segments.len()
        invariant
            i <= segments.len(),
            all == text::texts(segments@),
            all == text::split(s@, '.'),
            forall|k: int| 0 <= k < i ==> segment_ok(#[trigger] all[k], lead_underscore),
        decreases segments.len() - i,
    {
        assert(all[i as int] == segments@[i as int]@);
        if !is_segment(&segments[i], lead_underscore) {
            assert(!segment_ok(all[i as int], lead_underscore));
            return false;
        }
        i += 1;
    }
    segments.len() >= 2
}

} // verus!
