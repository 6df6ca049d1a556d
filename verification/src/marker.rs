//! Searching a link's text for the zsync marker.
//!
//! The search reads the text once, character by character, and remembers only
//! how many characters of the marker the text read so far ends with.

use vstd::prelude::*;

verus! {

/// The text that marks a link as pointing at a zsync control file: `.zsync`.
pub open spec fn zsync_marker() -> Seq<char> {
    seq!['.', 'z', 's', 'y', 'n', 'c']
}

/// `pattern` stands in `text` as a contiguous run of characters that starts at
/// position `at`.
pub open spec fn occurs_at(text: Seq<char>, pattern: Seq<char>, at: int) -> bool {
    &&& 0 <= at
    &&& at + pattern.len() <= text.len()
    &&& text.subrange(at, at + pattern.len()) == pattern
}

/// `pattern` stands somewhere in `text` as a contiguous run of characters.
pub open spec fn contains_pattern(text: Seq<char>, pattern: Seq<char>) -> bool {
    exists|at: int| occurs_at(text, pattern, at)
}

/// The marker is the text `.zsync`, character for character.
pub proof fn lemma_marker_text()
    ensures
        zsync_marker() == ".zsync"@,
{
    reveal_strlit(".zsync");
    assert(zsync_marker() =~= ".zsync"@);
}

/// The first `matched` characters of the marker are the last `matched`
/// characters of the first `read` characters of `text`.
spec fn marker_prefix_ends_at(text: Seq<char>, matched: int, read: int) -> bool {
    &&& 0 <= matched <= zsync_marker().len()
    &&& matched <= read <= text.len()
    &&& text.subrange(read - matched, read) == zsync_marker().take(matched)
}

/// What the search knows after reading the first `read` characters of `text`
/// without finding the marker: the marker ends nowhere in what was read, and
/// `matched` is the length of the longest beginning of the marker that what
/// was read ends with.
spec fn scanned(text: Seq<char>, read: int, matched: int) -> bool {
    &&& matched < zsync_marker().len()
    &&& marker_prefix_ends_at(text, matched, read)
    &&& forall|longer: int|
        matched < longer < zsync_marker().len() ==> !marker_prefix_ends_at(text, longer, read)
    &&& forall|at: int| at + zsync_marker().len() <= read ==> !occurs_at(text, zsync_marker(), at)
}

/// The length of the longest beginning of the marker that the text ends with
/// once `next` is read after a text that ended with `matched` characters of the
/// marker. Only the marker's first character is a full stop, so a character
/// that does not continue the match can at most begin a new one.
spec fn advance(matched: int, next: char) -> int {
    if next == zsync_marker()[matched] {
        matched + 1
    } else if next == '.' {
        1
    } else {
        0
    }
}

/// Spells out, character by character, what it means for a beginning of the
/// marker to end at a position of the text.
proof fn lemma_prefix_by_chars(text: Seq<char>, matched: int, read: int)
    requires
        0 <= matched <= 6,
        matched <= read <= text.len(),
    ensures
        marker_prefix_ends_at(text, matched, read) <==> {
            &&& (matched >= 1 ==> text[read - matched] == '.')
            &&& (matched >= 2 ==> text[read - matched + 1] == 'z')
            &&& (matched >= 3 ==> text[read - matched + 2] == 's')
            &&& (matched >= 4 ==> text[read - matched + 3] == 'y')
            &&& (matched >= 5 ==> text[read - matched + 4] == 'n')
            &&& (matched >= 6 ==> text[read - matched + 5] == 'c')
        },
{
    let window = text.subrange(read - matched, read);
    let prefix = zsync_marker().take(matched);
    assert(window.len() == matched == prefix.len());
    assert forall|j: int| 0 <= j < matched implies window[j] == text[read - matched + j]
        && prefix[j] == zsync_marker()[j] by {}
    if marker_prefix_ends_at(text, matched, read) {
        assert(window == prefix);
        assert(matched >= 1 ==> window[0] == prefix[0]);
        assert(matched >= 2 ==> window[1] == prefix[1]);
        assert(matched >= 3 ==> window[2] == prefix[2]);
        assert(matched >= 4 ==> window[3] == prefix[3]);
        assert(matched >= 5 ==> window[4] == prefix[4]);
        assert(matched >= 6 ==> window[5] == prefix[5]);
    } else {
        assert(!(window =~= prefix));
    }
}

/// A whole marker that ends at `end` is the marker occurring six characters
/// earlier.
proof fn lemma_whole_marker_is_occurrence(text: Seq<char>, end: int)
    ensures
        marker_prefix_ends_at(text, 6, end) <==> occurs_at(text, zsync_marker(), end - 6),
{
    assert(zsync_marker().take(6) =~= zsync_marker());
}

/// Before anything is read, nothing is matched.
proof fn lemma_nothing_scanned(text: Seq<char>)
    ensures
        scanned(text, 0, 0),
{
    assert(text.subrange(0, 0) =~= zsync_marker().take(0));
}

/// Reading one more character keeps the search's knowledge exact: either the
/// marker now ends at the character just read, or the new state describes the
/// longer text.
proof fn lemma_advance(text: Seq<char>, read: int, matched: int)
    requires
        scanned(text, read, matched),
        read < text.len(),
    ensures
        advance(matched, text[read]) == 6 ==> occurs_at(text, zsync_marker(), read - 5),
        advance(matched, text[read]) != 6 ==> scanned(text, read + 1, advance(matched, text[read])),
{
    let after: int = advance(matched, text[read]);
    let longer_text: int = read + 1;
    lemma_prefix_by_chars(text, matched, read);
    lemma_prefix_by_chars(text, after, longer_text);
    lemma_whole_marker_is_occurrence(text, longer_text);
    assert forall|longer: int| after < longer <= 6 implies !marker_prefix_ends_at(
        text,
        longer,
        longer_text,
    ) by {
        if longer <= longer_text {
            // A longer match would rest on a match of `longer - 1` characters
            // before the character just read.
            lemma_prefix_by_chars(text, longer, longer_text);
            lemma_prefix_by_chars(text, longer - 1, read);
            assert(longer - 1 > matched ==> !marker_prefix_ends_at(text, longer - 1, read));
        }
    }
}

/// Tells whether the zsync marker stands anywhere in `link`.
pub fn contains_zsync_marker(link: &str) -> (found: bool)
    ensures
        found == contains_pattern(link@, zsync_marker()),
{
    let mut matched: u8 = 0;
    proof {
        lemma_nothing_scanned(link@);
    }
    for next in chars: link.chars()
        invariant
            chars.seq() == link@,
            scanned(link@, chars.index(), matched as int),
    {
        proof {
            lemma_advance(link@, chars.index(), matched as int);
        }
        matched = match (matched, next) {
            (0, '.') => 1,
            (1, 'z') => 2,
            (2, 's') => 3,
            (3, 'y') => 4,
            (4, 'n') => 5,
            (5, 'c') => 6,
            (_, '.') => 1,
            _ => 0,
        };
        if matched == 6 {
            return true;
        }
    }
    false
}

} // verus!
