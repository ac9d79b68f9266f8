//! The mathematical model of a word-count table and the laws that recording
//! obeys.
//!
//! A table is a finite map from a word, as its sequence of characters, to the
//! number of times the word was recorded. A word that was never recorded is
//! absent; it is never present with a count of zero.

use vstd::prelude::*;

verus! {

/// The count that `table` holds for `word`: zero for a word that is absent.
pub open spec fn count_of(table: Map<Seq<char>, nat>, word: Seq<char>) -> nat {
    if table.contains_key(word) {
        table[word]
    } else {
        0
    }
}

/// The table after one more occurrence of `word` is recorded in `table`.
///
/// An absent word enters with count 1; the count of a present word grows by 1.
/// Any sequence of characters is a word, the empty one too.
pub open spec fn record(table: Map<Seq<char>, nat>, word: Seq<char>) -> Map<Seq<char>, nat> {
    table.insert(word, count_of(table, word) + 1)
}

/// The table after the words of `words` are recorded in `table`, first to last.
pub open spec fn record_all(table: Map<Seq<char>, nat>, words: Seq<Seq<char>>) -> Map<
    Seq<char>,
    nat,
>
    decreases words.len(),
{
    if words.len() == 0 {
        table
    } else {
        record(record_all(table, words.drop_last()), words.last())
    }
}

/// How many times `word` occurs in `words`.
pub open spec fn occurrences(words: Seq<Seq<char>>, word: Seq<char>) -> nat {
    words.to_multiset().count(word)
}

/// The table that holds, for each word of `words`, how often it occurs there.
pub open spec fn tally(words: Seq<Seq<char>>) -> Map<Seq<char>, nat> {
    Map::new(|word: Seq<char>| words.contains(word), |word: Seq<char>| occurrences(words, word))
}

/// Whether `table` is one that recording can produce: finitely many words,
/// each with a count of at least 1.
pub open spec fn well_counted(table: Map<Seq<char>, nat>) -> bool {
    &&& table.dom().finite()
    &&& forall|word: Seq<char>| #[trigger] table.contains_key(word) ==> table[word] >= 1
}

/// Recording a word raises its count by exactly 1 and leaves every other
/// count as it was. This holds of every word, the empty one included.
pub proof fn lemma_record_increments(table: Map<Seq<char>, nat>, word: Seq<char>)
    ensures
        record(table, word).contains_key(word),
        count_of(record(table, word), word) == count_of(table, word) + 1,
        forall|other: Seq<char>|
            other != word ==> #[trigger] count_of(record(table, word), other) == count_of(
                table,
                other,
            ),
        forall|other: Seq<char>|
            other != word ==> (#[trigger] record(table, word).contains_key(other)
                <==> table.contains_key(other)),
{
}

/// Recording is not idempotent: a second recording of the same word gives a
/// table that differs from the first.
pub proof fn lemma_record_not_idempotent(table: Map<Seq<char>, nat>, word: Seq<char>)
    ensures
        record(record(table, word), word) != record(table, word),
        count_of(record(record(table, word), word), word) == count_of(table, word) + 2,
{
}

/// The empty table is well counted, and recording keeps a table well counted.
pub proof fn lemma_record_well_counted(table: Map<Seq<char>, nat>, word: Seq<char>)
    requires
        well_counted(table),
    ensures
        well_counted(Map::<Seq<char>, nat>::empty()),
        well_counted(record(table, word)),
{
}

/// Counting occurrences goes word by word: no word occurs in the empty
/// sequence, and appending a word adds one occurrence of that word and
/// none of any other.
pub proof fn lemma_occurrences(words: Seq<Seq<char>>, last: Seq<char>, word: Seq<char>)
    ensures
        occurrences(Seq::empty(), word) == 0,
        occurrences(words.push(last), word) == occurrences(words, word) + if word == last {
            1nat
        } else {
            0nat
        },
{
    broadcast use vstd::seq_lib::group_to_multiset_ensures;
}

/// After `words` are recorded in `table`, the count of each word is its count
/// in `table` plus the number of times it occurs in `words`, and the words
/// present are those of `table` and those of `words`.
pub proof fn lemma_record_all_counts(table: Map<Seq<char>, nat>, words: Seq<Seq<char>>)
    ensures
        forall|word: Seq<char>| #[trigger]
            count_of(record_all(table, words), word) == count_of(table, word) + occurrences(
                words,
                word,
            ),
        forall|word: Seq<char>| #[trigger]
            record_all(table, words).contains_key(word) <==> table.contains_key(word)
                || words.contains(word),
    decreases words.len(),
{
    if words.len() == 0 {
        assert(words =~= Seq::empty());
        assert forall|word: Seq<char>| occurrences(words, word) == 0 by {
            lemma_occurrences(words, word, word);
        }
    } else {
        let front = words.drop_last();
        let last = words.last();
        lemma_record_all_counts(table, front);
        assert(words =~= front.push(last));
        assert forall|word: Seq<char>| #[trigger]
            count_of(record_all(table, words), word) == count_of(table, word) + occurrences(
                words,
                word,
            ) by {
            lemma_occurrences(front, last, word);
            assert(count_of(record_all(table, front), word) == count_of(table, word)
                + occurrences(front, word));
        }
        assert forall|word: Seq<char>| #[trigger]
            record_all(table, words).contains_key(word) <==> table.contains_key(word)
                || words.contains(word) by {
            assert(record_all(table, front).contains_key(word) <==> table.contains_key(word)
                || front.contains(word));
            if word == last {
                assert(words[words.len() - 1] == word);
            } else if front.contains(word) {
                let i = choose|i: int| 0 <= i < front.len() && front[i] == word;
                assert(words[i] == word);
            } else if words.contains(word) {
                let i = choose|i: int| 0 <= i < words.len() && words[i] == word;
                assert(front[i] == word);
            }
        }
    }
}

/// Recording a sequence of words in the empty table gives their tally: each
/// word that occurs in the sequence is present with the number of its
/// occurrences as count, and no other word is present.
pub proof fn lemma_record_all_is_tally(words: Seq<Seq<char>>)
    ensures
        record_all(Map::empty(), words) == tally(words),
        forall|word: Seq<char>| #[trigger]
            count_of(record_all(Map::empty(), words), word) == occurrences(words, word),
        well_counted(record_all(Map::empty(), words)),
{
    broadcast use vstd::seq_lib::group_to_multiset_ensures;

    let table = Map::<Seq<char>, nat>::empty();
    lemma_record_all_counts(table, words);
    assert forall|word: Seq<char>| #[trigger]
        record_all(table, words).contains_key(word) implies record_all(table, words)[word]
        == occurrences(words, word) by {
        assert(count_of(record_all(table, words), word) == count_of(table, word) + occurrences(
            words,
            word,
        ));
    }
    vstd::seq_lib::seq_to_set_is_finite(words);
}

/// The table after a sequence of recordings depends on which words were
/// recorded and how often, not on their order.
pub proof fn lemma_record_all_order_independent(
    table: Map<Seq<char>, nat>,
    first: Seq<Seq<char>>,
    second: Seq<Seq<char>>,
)
    requires
        first.to_multiset() == second.to_multiset(),
    ensures
        record_all(table, first) == record_all(table, second),
{
    broadcast use vstd::seq_lib::group_to_multiset_ensures;

    let a = record_all(table, first);
    let b = record_all(table, second);
    lemma_record_all_counts(table, first);
    lemma_record_all_counts(table, second);
    assert forall|word: Seq<char>| a.contains_key(word) <==> b.contains_key(word) by {
        assert(first.contains(word) <==> occurrences(first, word) > 0);
        assert(second.contains(word) <==> occurrences(second, word) > 0);
    }
    assert forall|word: Seq<char>| a.contains_key(word) implies a[word] == b[word] by {
        assert(count_of(a, word) == count_of(b, word));
    }
}

/// Recording one sequence of words and then another is recording the two in
/// a row.
pub proof fn lemma_record_all_in_a_row(
    table: Map<Seq<char>, nat>,
    first: Seq<Seq<char>>,
    second: Seq<Seq<char>>,
)
    ensures
        record_all(record_all(table, first), second) == record_all(table, first + second),
    decreases second.len(),
{
    if second.len() > 0 {
        lemma_record_all_in_a_row(table, first, second.drop_last());
        assert((first + second).drop_last() =~= first + second.drop_last());
    }
}

/// However the requests of two callers are interleaved, the table is the one
/// that stands when the requests of the first are all handled before those of
/// the second: each count grows by the number of requests for its word, of
/// both callers together.
pub proof fn lemma_record_all_interleaved(
    table: Map<Seq<char>, nat>,
    first: Seq<Seq<char>>,
    second: Seq<Seq<char>>,
    merged: Seq<Seq<char>>,
)
    requires
        merged.to_multiset() == first.to_multiset().add(second.to_multiset()),
    ensures
        record_all(table, merged) == record_all(record_all(table, first), second),
        forall|word: Seq<char>| #[trigger]
            count_of(record_all(table, merged), word) == count_of(table, word) + occurrences(
                first,
                word,
            ) + occurrences(second, word),
{
    vstd::seq_lib::lemma_multiset_commutative(first, second);
    lemma_record_all_order_independent(table, merged, first + second);
    lemma_record_all_in_a_row(table, first, second);
    lemma_record_all_counts(table, merged);
}

} // verus!
