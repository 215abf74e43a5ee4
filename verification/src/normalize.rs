//! Stripping emoji from words.
//!
//! A word is cut into grapheme clusters, the units a reader takes for one
//! character, so that an emoji made of several code points goes as a whole.
//! Every cluster that is a known emoji is dropped and the rest is put back
//! together.

use crate::split::texts;
use unicode_segmentation::UnicodeSegmentation;
use vstd::prelude::*;
use vstd::string::*;

verus! {

/// The extended grapheme clusters of `text`, from left to right, as the
/// crate `unicode_segmentation` cuts them.
pub uninterp spec fn grapheme_clusters(text: Seq<char>) -> Seq<Seq<char>>;

/// Whether `cluster` is one of the emoji that the crate `emojis` knows.
pub uninterp spec fn is_emoji(cluster: Seq<char>) -> bool;

/// The pieces put end to end.
pub open spec fn joined(pieces: Seq<Seq<char>>) -> Seq<char>
    decreases pieces.len(),
{
    if pieces.len() == 0 {
        Seq::empty()
    } else {
        joined(pieces.drop_last()) + pieces.last()
    }
}

/// `clusters` cut `text`: none of them is empty, and end to end they spell
/// the text.
pub open spec fn cuts(clusters: Seq<Seq<char>>, text: Seq<char>) -> bool {
    &&& joined(clusters) == text
    &&& forall|i: int| 0 <= i < clusters.len() ==> (#[trigger] clusters[i]).len() > 0
}

/// Whether the cluster in position `i` is marked. A position without a mark
/// is not.
pub open spec fn is_marked(marked: Seq<bool>, i: int) -> bool {
    0 <= i < marked.len() && marked[i]
}

/// The clusters that are not marked, put end to end in their order.
pub open spec fn unmarked(clusters: Seq<Seq<char>>, marked: Seq<bool>) -> Seq<char>
    decreases clusters.len(),
{
    if clusters.len() == 0 {
        Seq::empty()
    } else if is_marked(marked, clusters.len() - 1) {
        unmarked(clusters.drop_last(), marked)
    } else {
        unmarked(clusters.drop_last(), marked) + clusters.last()
    }
}

/// For each cluster, whether it is an emoji.
pub open spec fn emoji_marks(clusters: Seq<Seq<char>>) -> Seq<bool> {
    Seq::new(clusters.len(), |i: int| is_emoji(clusters[i]))
}

/// `text` without its emoji: its grapheme clusters that are not emoji, put
/// end to end in their order.
pub open spec fn normalized(text: Seq<char>) -> Seq<char> {
    unmarked(grapheme_clusters(text), emoji_marks(grapheme_clusters(text)))
}

/// No grapheme cluster of `text` is an emoji.
pub open spec fn emoji_free(text: Seq<char>) -> bool {
    forall|i: int|
        0 <= i < grapheme_clusters(text).len() ==> !is_emoji(#[trigger] grapheme_clusters(text)[i])
}

/// Every grapheme cluster of `text` is an emoji.
pub open spec fn emoji_only(text: Seq<char>) -> bool {
    forall|i: int|
        0 <= i < grapheme_clusters(text).len() ==> is_emoji(#[trigger] grapheme_clusters(text)[i])
}

/// Not verified: calls `UnicodeSegmentation::graphemes` of the crate
/// `unicode_segmentation`, asking for extended clusters, and copies each
/// cluster into a `String`. The contract gives the result its name and
/// states what the iterator's code shows: it hands out consecutive slices of
/// the text from its start to its end, each at least one character long.
#[verifier::external_body]
fn graphemes(text: &str) -> (clusters: Vec<String>)
    ensures
        texts(clusters@) == grapheme_clusters(text@),
        cuts(texts(clusters@), text@),
{
    UnicodeSegmentation::graphemes(text, true).map(String::from).collect()
}

/// Not verified: calls `emojis::get` and tells whether it found an emoji.
/// The lookup goes through a table that is part of that crate, so the answer
/// depends on the cluster alone.
#[verifier::external_body]
fn is_known_emoji(cluster: &str) -> (known: bool)
    ensures
        known == is_emoji(cluster@),
{
    emojis::get(cluster).is_some()
}

/// Marks the clusters that are emoji.
pub fn mark_emoji(clusters: &Vec<String>) -> (marks: Vec<bool>)
    ensures
        marks@ == emoji_marks(texts(clusters@)),
{
    let mut marks: Vec<bool> = Vec::new();
    let n = clusters.len();
    let mut i: usize = 0;
    while i < n
        invariant
            n == clusters.len(),
            i <= n,
            marks.len() == i,
            forall|k: int| 0 <= k < i ==> marks[k] == is_emoji(#[trigger] clusters[k]@),
        decreases n - i,
    {
        let known = is_known_emoji(clusters[i].as_str());
        marks.push(known);
        i = i + 1;
    }
    assert(marks@ =~= emoji_marks(texts(clusters@)));
    marks
}

/// Puts the clusters that are not marked end to end. A cluster for which
/// `marked` is too short to hold a mark stays.
pub fn join_unmarked(clusters: &Vec<String>, marked: &Vec<bool>) -> (text: String)
    ensures
        text@ == unmarked(texts(clusters@), marked@),
{
    let mut text = String::new();
    let n = clusters.len();
    let mut i: usize = 0;
    while i < n
        invariant
            n == clusters.len(),
            i <= n,
            text@ == unmarked(texts(clusters@).take(i as int), marked@),
        decreases n - i,
    {
        proof {
            let all = texts(clusters@);
            assert(all.take(i + 1).drop_last() =~= all.take(i as int));
            assert(all.take(i + 1).last() == clusters[i as int]@);
        }
        let drop = i < marked.len() && marked[i];
        if !drop {
            text.append(clusters[i].as_str());
        }
        i = i + 1;
    }
    assert(texts(clusters@).take(n as int) =~= texts(clusters@));
    text
}

/// Removes every emoji from `string`: cuts it into grapheme clusters, which
/// spell it, drops the clusters that are emoji and joins the others in
/// their order. Nothing is added, so the result is no longer than the
/// text. It is the text itself exactly when no cluster is an emoji, and it
/// is empty exactly when every cluster is one.
pub fn remove_emojis(string: &str) -> (stripped: String)
    ensures
        stripped@ == normalized(string@),
        cuts(grapheme_clusters(string@), string@),
        stripped@.len() <= string@.len(),
        (stripped@ == string@) == emoji_free(string@),
        (stripped@.len() == 0) == emoji_only(string@),
{
    let clusters = graphemes(string);
    let marks = mark_emoji(&clusters);
    proof {
        lemma_normalized_len(string@);
        lemma_normalized_is_text(string@);
        lemma_normalized_is_empty(string@);
    }
    join_unmarked(&clusters, &marks)
}

/// Tells whether every mark is set.
fn all_marked(marks: &Vec<bool>) -> (all: bool)
    ensures
        all == forall|i: int| 0 <= i < marks.len() ==> marks[i],
{
    let n = marks.len();
    let mut i: usize = 0;
    while i < n
        invariant
            n == marks.len(),
            i <= n,
            forall|k: int| 0 <= k < i ==> marks[k],
        decreases n - i,
    {
        if !marks[i] {
            return false;
        }
        i = i + 1;
    }
    true
}

/// Tells whether `string` is made of emoji alone: whether every one of its
/// grapheme clusters is an emoji. Such a text, and no other, is stripped to
/// nothing.
pub fn is_emoji_only(string: &str) -> (only: bool)
    ensures
        only == emoji_only(string@),
        only == (normalized(string@).len() == 0),
{
    let clusters = graphemes(string);
    let marks = mark_emoji(&clusters);
    let only = all_marked(&marks);
    proof {
        let found = grapheme_clusters(string@);
        if only {
            assert forall|i: int| 0 <= i < found.len() implies is_emoji(#[trigger] found[i]) by {
                assert(marks[i] == is_emoji(found[i]));
            }
        } else {
            let i = choose|i: int| 0 <= i < marks.len() && !marks[i];
            assert(!is_emoji(found[i]));
        }
        lemma_normalized_is_empty(string@);
    }
    only
}

/// Tells whether any mark is set.
fn any_marked(marks: &Vec<bool>) -> (any: bool)
    ensures
        any == exists|i: int| 0 <= i < marks.len() && marks[i],
{
    let n = marks.len();
    let mut i: usize = 0;
    while i < n
        invariant
            n == marks.len(),
            i <= n,
            forall|k: int| 0 <= k < i ==> !marks[k],
        decreases n - i,
    {
        if marks[i] {
            return true;
        }
        i = i + 1;
    }
    false
}

/// Tells whether one pass of `remove_emojis` over `string` leaves a text
/// that a second pass would not change. That is so exactly when no
/// grapheme cluster of the stripped text is an emoji. It can fail: dropping
/// an emoji that stood between two halves of a flag lets the halves meet,
/// and the flag they form is an emoji again.
pub fn settles_in_one_pass(string: &str) -> (settled: bool)
    ensures
        settled == emoji_free(normalized(string@)),
        settled == (normalized(normalized(string@)) == normalized(string@)),
{
    let once = remove_emojis(string);
    let clusters = graphemes(once.as_str());
    let marks = mark_emoji(&clusters);
    let settled = !any_marked(&marks);
    proof {
        let found = grapheme_clusters(once@);
        if settled {
            assert forall|i: int| 0 <= i < found.len() implies !is_emoji(#[trigger] found[i]) by {
                assert(marks[i] == is_emoji(found[i]));
            }
            lemma_normalize_idempotent(string@);
        } else {
            let i = choose|i: int| 0 <= i < marks.len() && marks[i];
            assert(is_emoji(found[i]));
            lemma_normalize_not_idempotent(string@);
        }
    }
    settled
}

/// What is left after dropping the marked clusters is no longer than all of
/// them together.
pub proof fn lemma_unmarked_len(clusters: Seq<Seq<char>>, marked: Seq<bool>)
    ensures
        unmarked(clusters, marked).len() <= joined(clusters).len(),
    decreases clusters.len(),
{
    if clusters.len() > 0 {
        lemma_unmarked_len(clusters.drop_last(), marked);
    }
}

/// With no cluster marked, nothing is dropped.
pub proof fn lemma_unmarked_none(clusters: Seq<Seq<char>>, marked: Seq<bool>)
    requires
        forall|i: int| 0 <= i < clusters.len() ==> !is_marked(marked, i),
    ensures
        unmarked(clusters, marked) == joined(clusters),
    decreases clusters.len(),
{
    if clusters.len() > 0 {
        assert(!is_marked(marked, clusters.len() - 1));
        lemma_unmarked_none(clusters.drop_last(), marked);
    }
}

/// With every cluster marked, nothing is left.
pub proof fn lemma_unmarked_all(clusters: Seq<Seq<char>>, marked: Seq<bool>)
    requires
        forall|i: int| 0 <= i < clusters.len() ==> is_marked(marked, i),
    ensures
        unmarked(clusters, marked) == Seq::<char>::empty(),
    decreases clusters.len(),
{
    if clusters.len() > 0 {
        assert(is_marked(marked, clusters.len() - 1));
        lemma_unmarked_all(clusters.drop_last(), marked);
    }
}

/// Dropping a cluster that is not empty leaves less than there was.
pub proof fn lemma_marked_shortens(clusters: Seq<Seq<char>>, marked: Seq<bool>, i: int)
    requires
        0 <= i < clusters.len(),
        is_marked(marked, i),
        clusters[i].len() > 0,
    ensures
        unmarked(clusters, marked).len() < joined(clusters).len(),
    decreases clusters.len(),
{
    let init = clusters.drop_last();
    if i == clusters.len() - 1 {
        lemma_unmarked_len(init, marked);
    } else {
        lemma_marked_shortens(init, marked, i);
    }
}

/// Keeping a cluster that is not empty leaves something.
pub proof fn lemma_unmarked_keeps(clusters: Seq<Seq<char>>, marked: Seq<bool>, i: int)
    requires
        0 <= i < clusters.len(),
        !is_marked(marked, i),
        clusters[i].len() > 0,
    ensures
        unmarked(clusters, marked).len() > 0,
    decreases clusters.len(),
{
    if i < clusters.len() - 1 {
        lemma_unmarked_keeps(clusters.drop_last(), marked, i);
    }
}

/// Stripping adds nothing: what is left of a text that its clusters spell
/// is no longer than the text.
pub proof fn lemma_normalized_len(text: Seq<char>)
    requires
        cuts(grapheme_clusters(text), text),
    ensures
        normalized(text).len() <= text.len(),
{
    lemma_unmarked_len(grapheme_clusters(text), emoji_marks(grapheme_clusters(text)));
}

/// A text that its clusters spell is left as it is exactly when none of
/// the clusters is an emoji.
pub proof fn lemma_normalized_is_text(text: Seq<char>)
    requires
        cuts(grapheme_clusters(text), text),
    ensures
        (normalized(text) == text) == emoji_free(text),
{
    let found = grapheme_clusters(text);
    if emoji_free(text) {
        lemma_emoji_free_is_fixed(text);
    } else {
        let i = choose|i: int| 0 <= i < found.len() && is_emoji(#[trigger] found[i]);
        lemma_marked_shortens(found, emoji_marks(found), i);
    }
}

/// A text that its clusters spell is stripped to nothing exactly when
/// every one of the clusters is an emoji.
pub proof fn lemma_normalized_is_empty(text: Seq<char>)
    requires
        cuts(grapheme_clusters(text), text),
    ensures
        (normalized(text).len() == 0) == emoji_only(text),
{
    let found = grapheme_clusters(text);
    if emoji_only(text) {
        lemma_emoji_only_vanishes(text);
    } else {
        let i = choose|i: int| 0 <= i < found.len() && !is_emoji(#[trigger] found[i]);
        lemma_unmarked_keeps(found, emoji_marks(found), i);
    }
}

/// A text whose clusters spell it and hold no emoji is left as it is.
pub proof fn lemma_emoji_free_is_fixed(text: Seq<char>)
    requires
        cuts(grapheme_clusters(text), text),
        emoji_free(text),
    ensures
        normalized(text) == text,
{
    let clusters = grapheme_clusters(text);
    assert forall|i: int| 0 <= i < clusters.len() implies !is_marked(emoji_marks(clusters), i) by {
        assert(!is_emoji(clusters[i]));
    }
    lemma_unmarked_none(clusters, emoji_marks(clusters));
}

/// Stripping emoji twice gives what stripping once gives, wherever the first
/// pass leaves a text that holds no emoji cluster. The first requirement
/// says of the stripped text what holds of every text that was ever cut
/// into clusters: they spell it, and none is empty.
pub proof fn lemma_normalize_idempotent(text: Seq<char>)
    requires
        cuts(grapheme_clusters(normalized(text)), normalized(text)),
        emoji_free(normalized(text)),
    ensures
        normalized(normalized(text)) == normalized(text),
{
    lemma_emoji_free_is_fixed(normalized(text));
}

/// Where the first pass leaves a text that holds an emoji cluster, a second
/// pass takes that cluster away, so the two passes differ.
pub proof fn lemma_normalize_not_idempotent(text: Seq<char>)
    requires
        cuts(grapheme_clusters(normalized(text)), normalized(text)),
        !emoji_free(normalized(text)),
    ensures
        normalized(normalized(text)) != normalized(text),
{
    let once = normalized(text);
    let found = grapheme_clusters(once);
    let i = choose|i: int| 0 <= i < found.len() && is_emoji(#[trigger] found[i]);
    lemma_marked_shortens(found, emoji_marks(found), i);
}

/// A text made of emoji alone is stripped to nothing.
pub proof fn lemma_emoji_only_vanishes(text: Seq<char>)
    requires
        emoji_only(text),
    ensures
        normalized(text) == Seq::<char>::empty(),
{
    let clusters = grapheme_clusters(text);
    assert forall|i: int| 0 <= i < clusters.len() implies is_marked(emoji_marks(clusters), i) by {
        assert(is_emoji(clusters[i]));
    }
    lemma_unmarked_all(clusters, emoji_marks(clusters));
}

} // verus!
