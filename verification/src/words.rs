//! Splitting text into whitespace-delimited words.

use vstd::prelude::*;

verus! {

/// Whether `char::is_whitespace` counts the character as white space (the
/// Unicode property `White_Space`).
pub uninterp spec fn is_white_space(c: char) -> bool;

/// `char::is_whitespace` decides the Unicode property `White_Space`.
pub assume_specification[ char::is_whitespace ](c: char) -> (b: bool)
    ensures
        b == is_white_space(c),
;

/// No character of `s` is white space.
pub open spec fn white_space_free(s: Seq<char>) -> bool {
    forall|i: int| 0 <= i < s.len() ==> !is_white_space(#[trigger] s[i])
}

/// The words of a text: its maximal runs of characters that are not white
/// space, in order. A character that is not white space extends the last word
/// when it follows such a character, and starts a new word otherwise.
pub open spec fn words(s: Seq<char>) -> Seq<Seq<char>>
    decreases s.len(),
{
    if s.len() == 0 {
        Seq::empty()
    } else {
        let before = words(s.drop_last());
        if is_white_space(s.last()) {
            before
        } else if s.len() >= 2 && !is_white_space(s[s.len() - 2]) {
            before.drop_last().push(before.last().push(s.last()))
        } else {
            before.push(seq![s.last()])
        }
    }
}

/// The words of every text of a list, in order, as one list.
pub open spec fn all_words(texts: Seq<Seq<char>>) -> Seq<Seq<char>> {
    texts.map_values(|t: Seq<char>| words(t)).flatten()
}

/// A text that ends in a character that is not white space has at least one
/// word; every word is non-empty and free of white space.
pub proof fn lemma_words_shape(s: Seq<char>)
    ensures
        s.len() > 0 && !is_white_space(s.last()) ==> words(s).len() > 0,
        forall|i: int|
            0 <= i < words(s).len() ==> (#[trigger] words(s)[i]).len() > 0 && white_space_free(
                words(s)[i],
            ),
    decreases s.len(),
{
    if s.len() > 0 {
        let head = s.drop_last();
        let before = words(head);
        lemma_words_shape(head);
        assert forall|i: int| 0 <= i < words(s).len() implies (#[trigger] words(s)[i]).len() > 0
            && white_space_free(words(s)[i]) by {
            if is_white_space(s.last()) {
                assert(words(s)[i] == before[i]);
            } else if s.len() >= 2 && !is_white_space(s[s.len() - 2]) {
                assert(head.last() == s[s.len() - 2]);
                if i < before.len() - 1 {
                    assert(words(s)[i] == before[i]);
                } else {
                    assert(words(s)[i] == before.last().push(s.last()));
                    assert(white_space_free(before[before.len() - 1]));
                }
            } else {
                if i < before.len() {
                    assert(words(s)[i] == before[i]);
                } else {
                    assert(words(s)[i] == seq![s.last()]);
                }
            }
        }
    }
}

/// The words of a text, one after the other, are the text without its white
/// space: splitting loses no other character and keeps the order.
pub proof fn lemma_words_keep_text(s: Seq<char>)
    ensures
        words(s).flatten() == s.filter(|c: char| !is_white_space(c)),
    decreases s.len(),
{
    let kept = |c: char| !is_white_space(c);
    if s.len() == 0 {
        assert(words(s).flatten() =~= Seq::<char>::empty());
        assert(s.filter(kept) =~= Seq::<char>::empty());
    } else {
        let head = s.drop_last();
        let before = words(head);
        lemma_words_keep_text(head);
        lemma_words_shape(head);
        assert(head.push(s.last()) =~= s);
        head.lemma_filter_push(s.last(), kept);
        if is_white_space(s.last()) {
        } else if s.len() >= 2 && !is_white_space(s[s.len() - 2]) {
            assert(head.last() == s[s.len() - 2]);
            let started = before.drop_last();
            assert(started.push(before.last()) =~= before);
            started.lemma_flatten_push(before.last());
            started.lemma_flatten_push(before.last().push(s.last()));
            assert(started.flatten() + before.last().push(s.last()) =~= (started.flatten()
                + before.last()).push(s.last()));
        } else {
            before.lemma_flatten_push(seq![s.last()]);
            assert(before.flatten() + seq![s.last()] =~= before.flatten().push(s.last()));
        }
    }
}

/// A non-empty text without white space is its own single word.
pub proof fn lemma_words_of_one_word(s: Seq<char>)
    requires
        s.len() > 0,
        white_space_free(s),
    ensures
        words(s) == seq![s],
    decreases s.len(),
{
    if s.len() == 1 {
        assert(words(s.drop_last()) =~= Seq::<Seq<char>>::empty());
        assert(seq![s.last()] =~= s);
    } else {
        lemma_words_of_one_word(s.drop_last());
        assert(s.drop_last().push(s.last()) =~= s);
        assert(seq![s.drop_last()].drop_last().push(s) =~= seq![s]);
    }
}

/// The words of a list with one more text are the words of the list followed
/// by those of the text.
pub proof fn lemma_all_words_push(texts: Seq<Seq<char>>, text: Seq<char>)
    ensures
        all_words(texts.push(text)) == all_words(texts) + words(text),
{
    let split = |t: Seq<char>| words(t);
    assert(texts.push(text).map_values(split) =~= texts.map_values(split).push(words(text)));
    texts.map_values(split).lemma_flatten_push(words(text));
}

/// A list of non-empty texts without white space is its own list of words.
pub proof fn lemma_all_words_of_words(texts: Seq<Seq<char>>)
    requires
        forall|i: int|
            0 <= i < texts.len() ==> (#[trigger] texts[i]).len() > 0 && white_space_free(texts[i]),
    ensures
        all_words(texts) == texts,
    decreases texts.len(),
{
    if texts.len() == 0 {
        assert(texts.map_values(|t: Seq<char>| words(t)) =~= Seq::<Seq<Seq<char>>>::empty());
        assert(all_words(texts) =~= texts);
    } else {
        let head = texts.drop_last();
        lemma_all_words_of_words(head);
        assert(head.push(texts.last()) =~= texts);
        lemma_all_words_push(head, texts.last());
        lemma_words_of_one_word(texts.last());
        assert(head + seq![texts.last()] =~= texts);
    }
}

/// Splits a text at white space into its words.
pub fn split_whitespace(text: &str) -> (out: Vec<String>)
    ensures
        out.deep_view() == words(text@),
{
    let mut out: Vec<String> = Vec::new();
    let mut current = String::new();
    for c in it: text.chars()
        invariant
            it.seq() == text@,
            current@.len() > 0 <==> it.index() > 0 && !is_white_space(text@[it.index() - 1]),
            words(text@.take(it.index() as int)) == if current@.len() > 0 {
                out.deep_view().push(current@)
            } else {
                out.deep_view()
            },
    {
        let ghost k = it.index() as int;
        proof {
            assert(text@.take(k + 1).drop_last() =~= text@.take(k));
            assert(text@.take(k + 1).last() == c);
            if k > 0 {
                assert(text@.take(k + 1)[k - 1] == text@[k - 1]);
            }
        }
        if c.is_whitespace() {
            if !current.as_str().is_empty() {
                let ghost before = out.deep_view();
                let ghost last = current@;
                out.push(current);
                current = String::new();
                assert(out.deep_view() =~= before.push(last));
            }
        } else {
            let ghost before = current@;
            current.push(c);
            proof {
                if before.len() > 0 {
                    assert(out.deep_view().push(before).drop_last() =~= out.deep_view());
                } else {
                    assert(current@ =~= seq![c]);
                }
            }
        }
    }
    proof {
        assert(text@.take(text@.len() as int) =~= text@);
    }
    if !current.as_str().is_empty() {
        let ghost before = out.deep_view();
        let ghost last = current@;
        out.push(current);
        assert(out.deep_view() =~= before.push(last));
    }
    out
}

} // verus!
