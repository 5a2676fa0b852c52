//! The order of versions: two raw version strings are brought to the same shape
//! and held against each other segment by segment.

use crate::text::{
    all_digits, contains, contains_chars, decimal, greater, is_digits, is_greater,
    is_greater_number, replace, replace_chars, same_text, split, split_chars, to_chars, to_string,
    views,
};
use vstd::prelude::*;
use vstd::utf8::encode_utf8;

verus! {

/// The marker of a pre-release in a version.
pub open spec fn marker() -> Seq<char> {
    seq!['-', 'r', 'c']
}

/// What takes the marker's place in a version that is made comparable.
pub open spec fn marker_stand_in() -> Seq<char> {
    seq!['.']
}

/// The segment that a version without a marker gains beside one with a marker.
pub open spec fn release_padding() -> Seq<char> {
    seq!['.', '0']
}

/// The length of `s` in bytes, as UTF-8.
pub open spec fn byte_len(s: Seq<char>) -> nat {
    encode_utf8(s).len()
}

/// The two versions as they are compared. Versions of the same length in bytes
/// stay as they are. Otherwise the marker in a version gives way to a dot, and
/// where only one of the two holds a marker, the other gains a last segment `0`.
pub open spec fn spec_normalize(old_version: Seq<char>, new_version: Seq<char>) -> (
    Seq<char>,
    Seq<char>,
) {
    let in_old = contains(old_version, marker());
    let in_new = contains(new_version, marker());
    if byte_len(old_version) == byte_len(new_version) {
        (old_version, new_version)
    } else if in_old && !in_new {
        (replace(old_version, marker(), marker_stand_in()), new_version + release_padding())
    } else if in_new && !in_old {
        (old_version + release_padding(), replace(new_version, marker(), marker_stand_in()))
    } else if in_new && in_old {
        (
            replace(old_version, marker(), marker_stand_in()),
            replace(new_version, marker(), marker_stand_in()),
        )
    } else {
        (old_version, new_version)
    }
}

/// Whether a segment is a number: one decimal digit or more, and nothing else.
pub open spec fn is_number(segment: Seq<char>) -> bool {
    segment.len() > 0 && is_digits(segment)
}

/// The order of segments: whether `a` comes strictly after `b`. Two numbers are
/// ordered as numbers, so that `10` comes after `9`; where either is not a number,
/// the two are ordered as texts.
pub open spec fn segment_greater(a: Seq<char>, b: Seq<char>) -> bool {
    if is_number(a) && is_number(b) {
        decimal(a) > decimal(b)
    } else {
        greater(a, b)
    }
}

/// Whether at some position that both have, the new segment comes strictly after
/// the old one. Segments that only the longer of the two has do not count, and a
/// new segment that comes before the old one decides nothing.
pub open spec fn some_segment_greater(
    old_segments: Seq<Seq<char>>,
    new_segments: Seq<Seq<char>>,
) -> bool {
    exists|i: int|
        0 <= i < old_segments.len() && i < new_segments.len() && segment_greater(
            #[trigger] new_segments[i],
            old_segments[i],
        )
}

/// Whether the new version calls for an upgrade from the old one: the two differ
/// and, made comparable and split at the dots, some new segment comes after the old
/// segment at its position.
pub open spec fn spec_needs_upgrade(old_version: Seq<char>, new_version: Seq<char>) -> bool {
    old_version != new_version && some_segment_greater(
        split(spec_normalize(old_version, new_version).0, '.'),
        split(spec_normalize(old_version, new_version).1, '.'),
    )
}

/// Brings the two versions to the shape in which they are compared.
pub fn normalize(old_version: &str, new_version: &str) -> (r: (String, String))
    ensures
        (r.0@, r.1@) == spec_normalize(old_version@, new_version@),
{
    if old_version.as_bytes().len() == new_version.as_bytes().len() {
        return (old_version.to_owned(), new_version.to_owned());
    }
    let mut old_chars = to_chars(old_version);
    let mut new_chars = to_chars(new_version);
    let rc: Vec<char> = vec!['-', 'r', 'c'];
    let dot: Vec<char> = vec!['.'];
    assert(rc@ == marker() && dot@ == marker_stand_in());
    let in_old = contains_chars(&old_chars, &rc);
    let in_new = contains_chars(&new_chars, &rc);
    if in_old && !in_new {
        old_chars = replace_chars(&old_chars, &rc, &dot);
        new_chars.push('.');
        new_chars.push('0');
        assert(new_chars@ == new_version@ + release_padding());
    } else if in_new && !in_old {
        new_chars = replace_chars(&new_chars, &rc, &dot);
        old_chars.push('.');
        old_chars.push('0');
        assert(old_chars@ == old_version@ + release_padding());
    } else if in_new && in_old {
        new_chars = replace_chars(&new_chars, &rc, &dot);
        old_chars = replace_chars(&old_chars, &rc, &dot);
    }
    (to_string(&old_chars), to_string(&new_chars))
}

/// Whether the segment `a` comes strictly after the segment `b`.
pub fn is_segment_greater(a: &Vec<char>, b: &Vec<char>) -> (r: bool)
    ensures
        r == segment_greater(a@, b@),
{
    if a.len() > 0 && b.len() > 0 && all_digits(a) && all_digits(b) {
        is_greater_number(a, b)
    } else {
        is_greater(a, b)
    }
}

/// Whether some segment of `new_segments` comes after the segment of
/// `old_segments` at its position.
pub fn any_segment_greater(old_segments: &Vec<Vec<char>>, new_segments: &Vec<Vec<char>>) -> (r:
    bool)
    ensures
        r == some_segment_greater(views(old_segments@), views(new_segments@)),
{
    let mut i: usize = 0;
    while i < old_segments.len() && i < new_segments.len()
        invariant
            i <= old_segments.len(),
            i <= new_segments.len(),
            forall|k: int|
                0 <= k < i ==> !segment_greater(
                    #[trigger] views(new_segments@)[k],
                    views(old_segments@)[k],
                ),
        decreases old_segments.len() - i,
    {
        if is_segment_greater(&new_segments[i], &old_segments[i]) {
            assert(segment_greater(
                views(new_segments@)[i as int],
                views(old_segments@)[i as int],
            ));
            return true;
        }
        i += 1;
    }
    false
}

/// Whether the new version of a component calls for an upgrade from the old one.
/// Equal versions never do.
pub fn needs_upgrade(old_version: &str, new_version: &str) -> (r: bool)
    ensures
        r == spec_needs_upgrade(old_version@, new_version@),
        old_version@ == new_version@ ==> !r,
{
    let old_raw = to_chars(old_version);
    let new_raw = to_chars(new_version);
    if same_text(&old_raw, &new_raw) {
        return false;
    }
    let (old_shaped, new_shaped) = normalize(old_version, new_version);
    let old_segments = split_chars(&to_chars(old_shaped.as_str()), '.');
    let new_segments = split_chars(&to_chars(new_shaped.as_str()), '.');
    any_segment_greater(&old_segments, &new_segments)
}

/// A version calls for no upgrade from itself, whatever its shape.
pub proof fn lemma_equal_versions_need_no_upgrade(version: Seq<char>)
    ensures
        !spec_needs_upgrade(version, version),
{
}

/// An upgrade is called for exactly where the versions differ and the new one, made
/// comparable, has a segment that comes after the old segment at its position;
/// whether an earlier new segment comes before the old one does not matter.
pub proof fn lemma_one_greater_segment_decides(
    old_version: Seq<char>,
    new_version: Seq<char>,
    i: int,
)
    requires
        old_version != new_version,
        0 <= i < split(spec_normalize(old_version, new_version).0, '.').len(),
        i < split(spec_normalize(old_version, new_version).1, '.').len(),
        segment_greater(
            split(spec_normalize(old_version, new_version).1, '.')[i],
            split(spec_normalize(old_version, new_version).0, '.')[i],
        ),
    ensures
        spec_needs_upgrade(old_version, new_version),
{
}


/// Numbers are ordered by what they count, whatever their lengths and the zeros in
/// front of them: between two numbers the order of segments is the order of their
/// values.
pub proof fn lemma_numbers_are_ordered_by_value(a: Seq<char>, b: Seq<char>)
    requires
        is_number(a),
        is_number(b),
    ensures
        segment_greater(a, b) <==> decimal(a) > decimal(b),
        !(segment_greater(a, b) && segment_greater(b, a)),
{
}

} // verus!
