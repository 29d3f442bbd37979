//! Inclusive character ranges and their merging.

use vstd::prelude::*;

verus! {

/// An inclusive range of characters, `start..=end`.
///
/// Ranges are ordered by `start`, then by `end` (see [`CharRange::lt`]).
/// A range built by [`CharRange::new`] is well formed: `start <= end`.
#[derive(Debug, Clone, Copy, PartialEq, Eq, PartialOrd, Ord, Structural)]
pub struct CharRange {
    pub start: char,
    pub end: char,
}

/// The lowest character.
pub const FIRST_CHAR: char = '\0';

/// The highest character.
pub const LAST_CHAR: char = '\u{10FFFF}';

impl CharRange {
    /// A range is well formed when it is not empty.
    pub open spec fn wf(self) -> bool {
        self.start <= self.end
    }

    /// Whether `ch` lies in the range.
    pub open spec fn spec_contains(self, ch: char) -> bool {
        self.start <= ch && ch <= self.end
    }

    /// The order of ranges: by `start`, then by `end`.
    pub open spec fn lt(self, other: CharRange) -> bool {
        self.start < other.start || (self.start == other.start && self.end < other.end)
    }

    /// `self` is `other` or comes before it.
    pub open spec fn le(self, other: CharRange) -> bool {
        self == other || self.lt(other)
    }

    /// The lowest single-character range.
    pub open spec fn spec_lowest() -> CharRange {
        CharRange { start: FIRST_CHAR, end: FIRST_CHAR }
    }

    /// The highest single-character range.
    pub open spec fn spec_highest() -> CharRange {
        CharRange { start: LAST_CHAR, end: LAST_CHAR }
    }

    /// The range of all characters.
    pub open spec fn spec_full() -> CharRange {
        CharRange { start: FIRST_CHAR, end: LAST_CHAR }
    }

    /// The code point of the character that follows `ch`. The surrogate
    /// block holds no character, so the one before it is followed by the one
    /// behind it. For the last character this is one past its code point.
    pub open spec fn after(ch: char) -> int {
        if ch == '\u{D7FF}' {
            0xE000
        } else {
            ch as int + 1
        }
    }

    /// Two ranges can be merged when they overlap or touch: the character
    /// after the lower of the two ends reaches the higher of the two starts.
    pub open spec fn mergeable(self, other: CharRange) -> bool {
        let start = if self.start >= other.start { self.start } else { other.start };
        let end = if self.end <= other.end { self.end } else { other.end };
        start as int <= CharRange::after(end)
    }

    /// The smallest range that covers both `self` and `other`.
    pub open spec fn hull(self, other: CharRange) -> CharRange {
        CharRange {
            start: if self.start <= other.start { self.start } else { other.start },
            end: if self.end >= other.end { self.end } else { other.end },
        }
    }

    /// The merge of two ranges: their hull if they overlap or touch.
    pub open spec fn spec_concat(self, other: CharRange) -> Option<CharRange> {
        if self.mergeable(other) {
            Some(self.hull(other))
        } else {
            None
        }
    }

    /// `ch` lies strictly between the two ranges, in neither of them.
    pub open spec fn parted_by(self, other: CharRange, ch: char) -> bool {
        (self.end < ch && ch < other.start) || (other.end < ch && ch < self.start)
    }

    /// The lowest single-character range, a lower bound of every range.
    #[verifier::when_used_as_spec(spec_lowest)]
    pub fn lowest() -> (r: CharRange)
        ensures
            r == CharRange::spec_lowest(),
    {
        CharRange { start: FIRST_CHAR, end: FIRST_CHAR }
    }

    /// The highest single-character range, an upper bound of every range.
    #[verifier::when_used_as_spec(spec_highest)]
    pub fn highest() -> (r: CharRange)
        ensures
            r == CharRange::spec_highest(),
    {
        CharRange { start: LAST_CHAR, end: LAST_CHAR }
    }

    /// The range of all characters, which marks the terminal state.
    #[verifier::when_used_as_spec(spec_full)]
    pub fn full() -> (r: CharRange)
        ensures
            r == CharRange::spec_full(),
    {
        CharRange { start: FIRST_CHAR, end: LAST_CHAR }
    }

    /// The range `start..=end`.
    pub fn new(start: char, end: char) -> (r: CharRange)
        requires
            start <= end,
        ensures
            r == (CharRange { start, end }),
            r.wf(),
    {
        CharRange { start, end }
    }

    /// Whether `ch` lies in the range.
    #[verifier::when_used_as_spec(spec_contains)]
    pub fn contains(self, ch: char) -> (b: bool)
        ensures
            b == self.spec_contains(ch),
    {
        ch >= self.start && ch <= self.end
    }

    /// Merges two ranges that overlap or touch into the smallest range that
    /// covers both; `None` if at least one character separates them.
    pub fn concat(self, other: CharRange) -> (merged: Option<CharRange>)
        ensures
            merged == self.spec_concat(other),
    {
        let start: u32 = if self.start >= other.start {
            self.start as u32
        } else {
            other.start as u32
        };
        let end: u32 = if self.end <= other.end {
            self.end as u32
        } else {
            other.end as u32
        };
        let next: u32 = if end == 0xD7FF {
            0xE000
        } else {
            end.saturating_add(1)
        };
        if start > next {
            return None;
        }
        Some(
            CharRange {
                start: if self.start <= other.start {
                    self.start
                } else {
                    other.start
                },
                end: if self.end >= other.end {
                    self.end
                } else {
                    other.end
                },
            },
        )
    }
}

/// No character is a surrogate: none lies between the one before the
/// surrogate block and the one behind it.
pub proof fn lemma_no_surrogate(ch: char)
    ensures
        ch <= '\u{D7FF}' || '\u{E000}' <= ch,
{
}

/// Merging does not depend on the order of its operands.
pub proof fn lemma_concat_commutative(a: CharRange, b: CharRange)
    ensures
        a.spec_concat(b) == b.spec_concat(a),
{
}

/// Every range lies between the lowest and the highest single-character
/// range, in the order of ranges.
pub proof fn lemma_sentinels_bound(r: CharRange)
    ensures
        CharRange::spec_lowest().le(r),
        r.le(CharRange::spec_highest()),
{
}

/// The order of ranges is a strict total order.
pub proof fn lemma_order_total(a: CharRange, b: CharRange, c: CharRange)
    ensures
        !a.lt(a),
        a.lt(b) && b.lt(c) ==> a.lt(c),
        a.lt(b) || a == b || b.lt(a),
        !(a.lt(b) && b.lt(a)),
{
}

/// Two well-formed ranges merge unless a character lies strictly between
/// them.
pub proof fn lemma_concat_none_iff_parted(a: CharRange, b: CharRange)
    requires
        a.wf(),
        b.wf(),
    ensures
        a.spec_concat(b) is None <==> exists|ch: char| a.parted_by(b, ch),
{
    if a.spec_concat(b) is None {
        lemma_unmerged_ranges_are_parted(a, b);
    }
    if exists|ch: char| a.parted_by(b, ch) {
        let ch = choose|ch: char| a.parted_by(b, ch);
        lemma_parted_ranges_do_not_merge(a, b, ch);
    }
}

/// The merge of two well-formed ranges that overlap or touch runs from
/// the lower start to the higher end, and holds exactly the characters of
/// the two.
pub proof fn lemma_concat_is_union(a: CharRange, b: CharRange)
    requires
        a.wf(),
        b.wf(),
        a.mergeable(b),
    ensures
        a.spec_concat(b) == Some(a.hull(b)),
        a.hull(b).wf(),
        forall|ch: char|
            #[trigger] a.hull(b).spec_contains(ch) <==> a.spec_contains(ch) || b.spec_contains(
                ch,
            ),
{
    assert forall|ch: char| #[trigger]
        a.hull(b).spec_contains(ch) implies a.spec_contains(ch) || b.spec_contains(ch) by {
        lemma_no_surrogate(ch);
    }
}

/// Two well-formed ranges with a character strictly between them do not
/// merge.
pub proof fn lemma_parted_ranges_do_not_merge(a: CharRange, b: CharRange, ch: char)
    requires
        a.wf(),
        b.wf(),
        a.parted_by(b, ch),
    ensures
        a.spec_concat(b) is None,
{
}

/// Two well-formed ranges that do not merge have a character strictly
/// between them: the one that follows the lower of the two ends.
pub proof fn lemma_unmerged_ranges_are_parted(a: CharRange, b: CharRange)
    requires
        a.wf(),
        b.wf(),
        a.spec_concat(b) is None,
    ensures
        exists|ch: char| a.parted_by(b, ch),
{
    let end = if a.end <= b.end { a.end } else { b.end };
    let ch = CharRange::after(end) as char;
    assert(a.parted_by(b, ch));
}

} // verus!
