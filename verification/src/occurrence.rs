//! Occurrences of a pattern in a text, and how they behave when texts are
//! joined. The laws on the emitted assembly are stated with these.

use vstd::prelude::*;

verus! {

/// `pattern` stands in `text` at position `at`.
pub open spec fn occurs_at(text: Seq<char>, pattern: Seq<char>, at: int) -> bool {
    &&& 0 <= at
    &&& at + pattern.len() <= text.len()
    &&& text.subrange(at, at + pattern.len()) == pattern
}

/// `pattern` stands somewhere in `text`.
pub open spec fn occurs_in(text: Seq<char>, pattern: Seq<char>) -> bool {
    exists|at: int| occurs_at(text, pattern, at)
}

/// The positions of `text` at which `pattern` stands.
pub open spec fn occurrences(text: Seq<char>, pattern: Seq<char>) -> Set<int> {
    Set::new(|at: int| occurs_at(text, pattern, at))
}

/// An occurrence matches the text character by character.
pub proof fn lemma_occurrence_chars(text: Seq<char>, pattern: Seq<char>, at: int, k: int)
    requires
        occurs_at(text, pattern, at),
        0 <= k < pattern.len(),
    ensures
        text[at + k] == pattern[k],
{
    assert(text.subrange(at, at + pattern.len())[k] == text[at + k]);
}

/// Where a pattern stands, every beginning of the pattern stands too.
pub proof fn lemma_occurrence_of_beginning(
    text: Seq<char>,
    pattern: Seq<char>,
    at: int,
    len: int,
)
    requires
        occurs_at(text, pattern, at),
        0 <= len <= pattern.len(),
    ensures
        occurs_at(text, pattern.subrange(0, len), at),
{
    assert(text.subrange(at, at + len) =~= text.subrange(at, at + pattern.len()).subrange(0, len));
}

/// A character that the pattern does not hold separates: where the first of
/// two joined texts ends in such a character, every occurrence in the whole
/// lies in the first text or in the second, never across the joint.
pub proof fn lemma_occurrence_in_joined(
    first: Seq<char>,
    second: Seq<char>,
    pattern: Seq<char>,
    at: int,
)
    requires
        first.len() > 0,
        !pattern.contains(first.last()),
    ensures
        occurs_at(first + second, pattern, at) <==> (occurs_at(first, pattern, at) || (at
            >= first.len() && occurs_at(second, pattern, at - first.len()))),
{
    let whole = first + second;
    let n = pattern.len() as int;
    let m = first.len() as int;
    if occurs_at(whole, pattern, at) {
        if at < m && at + n > m {
            lemma_occurrence_chars(whole, pattern, at, m - 1 - at);
            assert(whole[m - 1] == first.last());
            assert(pattern.contains(pattern[m - 1 - at]));
        } else if at + n <= m {
            assert(first.subrange(at, at + n) =~= whole.subrange(at, at + n));
        } else {
            assert(second.subrange(at - m, at - m + n) =~= whole.subrange(at, at + n));
        }
    }
    if occurs_at(first, pattern, at) {
        assert(first.subrange(at, at + n) =~= whole.subrange(at, at + n));
    }
    if at >= m && occurs_at(second, pattern, at - m) {
        assert(second.subrange(at - m, at - m + n) =~= whole.subrange(at, at + n));
    }
}

/// A text that ends in a character which the pattern does not hold has its
/// occurrences before that character.
pub proof fn lemma_occurrence_before_last(text: Seq<char>, last: char, pattern: Seq<char>, at: int)
    requires
        pattern.len() > 0,
        !pattern.contains(last),
    ensures
        occurs_at(text.push(last), pattern, at) <==> occurs_at(text, pattern, at),
{
    let whole = text.push(last);
    let n = pattern.len() as int;
    if occurs_at(whole, pattern, at) {
        if at + n > text.len() {
            lemma_occurrence_chars(whole, pattern, at, n - 1);
            assert(pattern.contains(pattern[n - 1]));
        }
        assert(text.subrange(at, at + n) =~= whole.subrange(at, at + n));
    }
    if occurs_at(text, pattern, at) {
        assert(text.subrange(at, at + n) =~= whole.subrange(at, at + n));
    }
}

/// How many positions before `upto` hold an occurrence of `pattern`.
pub open spec fn count_before(text: Seq<char>, pattern: Seq<char>, upto: int) -> nat
    decreases upto,
{
    if upto <= 0 {
        0
    } else {
        count_before(text, pattern, upto - 1) + if occurs_at(text, pattern, upto - 1) {
            1nat
        } else {
            0nat
        }
    }
}

/// How often `pattern` stands in `text`, overlapping occurrences included.
pub open spec fn occurrence_count(text: Seq<char>, pattern: Seq<char>) -> nat {
    count_before(text, pattern, text.len() as int + 1)
}

/// Positions past the end of the text hold no occurrence.
pub proof fn lemma_count_past_end(text: Seq<char>, pattern: Seq<char>, upto: int)
    requires
        upto > text.len(),
    ensures
        count_before(text, pattern, upto) == occurrence_count(text, pattern),
    decreases upto,
{
    if upto > text.len() + 1 {
        lemma_count_past_end(text, pattern, upto - 1);
    }
}

/// A pattern that stands at one position only is counted once, and one that
/// stands nowhere is not counted.
pub proof fn lemma_count_single(text: Seq<char>, pattern: Seq<char>, only: int, upto: int)
    requires
        forall|at: int| occurs_at(text, pattern, at) ==> at == only,
    ensures
        count_before(text, pattern, upto) == if occurs_at(text, pattern, only) && only < upto {
            1nat
        } else {
            0nat
        },
    decreases upto,
{
    if upto > 0 {
        lemma_count_single(text, pattern, only, upto - 1);
    }
}

/// Counting in the first of two joined texts: before the joint, the whole
/// text holds the occurrences of the first text.
proof fn lemma_count_joined_first(
    first: Seq<char>,
    second: Seq<char>,
    pattern: Seq<char>,
    upto: int,
)
    requires
        first.len() > 0,
        pattern.len() > 0,
        !pattern.contains(first.last()),
        upto <= first.len(),
    ensures
        count_before(first + second, pattern, upto) == count_before(first, pattern, upto),
    decreases upto,
{
    if upto > 0 {
        lemma_count_joined_first(first, second, pattern, upto - 1);
        lemma_occurrence_in_joined(first, second, pattern, upto - 1);
    }
}

/// Counting in the second of two joined texts: from the joint on, the whole
/// text holds the occurrences of the second text.
proof fn lemma_count_joined_second(
    first: Seq<char>,
    second: Seq<char>,
    pattern: Seq<char>,
    upto: int,
)
    requires
        first.len() > 0,
        pattern.len() > 0,
        !pattern.contains(first.last()),
        upto >= 0,
    ensures
        count_before(first + second, pattern, first.len() + upto) == count_before(
            first,
            pattern,
            first.len() as int,
        ) + count_before(second, pattern, upto),
    decreases upto,
{
    if upto == 0 {
        lemma_count_joined_first(first, second, pattern, first.len() as int);
    } else {
        lemma_count_joined_second(first, second, pattern, upto - 1);
        lemma_occurrence_in_joined(first, second, pattern, first.len() + upto - 1);
    }
}

/// A character that the pattern does not hold separates the counts too:
/// where the first of two joined texts ends in such a character, the whole
/// holds as many occurrences as the two texts together.
pub proof fn lemma_count_joined(first: Seq<char>, second: Seq<char>, pattern: Seq<char>)
    requires
        first.len() > 0,
        pattern.len() > 0,
        !pattern.contains(first.last()),
    ensures
        occurrence_count(first + second, pattern) == occurrence_count(first, pattern)
            + occurrence_count(second, pattern),
{
    lemma_count_joined_second(first, second, pattern, second.len() as int + 1);
    assert(!occurs_at(first, pattern, first.len() as int));
}

/// A pattern that stands at exactly the position `only` is counted once.
pub proof fn lemma_count_one(text: Seq<char>, pattern: Seq<char>, only: int)
    requires
        forall|at: int| occurs_at(text, pattern, at) <==> at == only,
    ensures
        occurrence_count(text, pattern) == 1,
{
    assert(occurs_at(text, pattern, only));
    lemma_count_single(text, pattern, only, text.len() as int + 1);
}

/// A pattern that stands nowhere is counted zero times.
pub proof fn lemma_count_none(text: Seq<char>, pattern: Seq<char>)
    requires
        forall|at: int| !occurs_at(text, pattern, at),
    ensures
        occurrence_count(text, pattern) == 0,
{
    lemma_count_single(text, pattern, 0, text.len() as int + 1);
}

} // verus!
