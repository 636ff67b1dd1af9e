//! Character classes and the per-token text filters.

use vstd::prelude::*;

verus! {

/// `String::push` appends one character at the end of the string.
pub assume_specification[ String::push ](s: &mut String, c: char)
    ensures
        final(s)@ == old(s)@.push(c),
;

/// The ASCII punctuation class: the four ranges `!`..=`/`, `:`..=`@`,
/// `[`..=`` ` `` and `{`..=`~`.
pub open spec fn is_ascii_punctuation(c: char) -> bool {
    ||| '!' <= c <= '/'
    ||| ':' <= c <= '@'
    ||| '[' <= c <= '`'
    ||| '{' <= c <= '~'
}

/// No character of `s` is ASCII punctuation.
pub open spec fn punctuation_free(s: Seq<char>) -> bool {
    forall|i: int| 0 <= i < s.len() ==> !is_ascii_punctuation(#[trigger] s[i])
}

/// The text without its ASCII punctuation, the other characters in order.
pub open spec fn without_punctuation(s: Seq<char>) -> Seq<char> {
    s.filter(|c: char| !is_ascii_punctuation(c))
}

/// The text without the apostrophe U+0027, the other characters in order.
pub open spec fn without_apostrophes(s: Seq<char>) -> Seq<char> {
    s.filter(|c: char| c != '\'')
}

/// Punctuation and apostrophes both removed, as the first cleaning of a token does.
pub open spec fn cleaned(s: Seq<char>) -> Seq<char> {
    without_apostrophes(without_punctuation(s))
}

/// Length of the UTF-8 encoding, the measure the length bounds use.
pub open spec fn byte_len(s: Seq<char>) -> nat {
    vstd::utf8::encode_utf8(s).len()
}

/// A token survives the length bounds when it has more than one byte and
/// fewer than fifty.
pub open spec fn within_length_bounds(s: Seq<char>) -> bool {
    1 < byte_len(s) < 50
}

/// Decides membership in the ASCII punctuation class.
pub fn ascii_punctuation(c: char) -> (b: bool)
    ensures
        b == is_ascii_punctuation(c),
{
    ('!' <= c && c <= '/') || (':' <= c && c <= '@') || ('[' <= c && c <= '`') || ('{' <= c
        && c <= '~')
}

/// Removes every ASCII punctuation character from `text`.
pub fn remove_punctuation(text: &str) -> (out: String)
    ensures
        out@ == without_punctuation(text@),
        punctuation_free(out@),
{
    let mut out = String::new();
    for c in it: text.chars()
        invariant
            it.seq() == text@,
            out@ == without_punctuation(text@.take(it.index() as int)),
    {
        proof {
            lemma_filter_take_next(text@, it.index() as int, |c: char| !is_ascii_punctuation(c));
        }
        if !ascii_punctuation(c) {
            out.push(c);
        }
    }
    proof {
        assert(text@.take(text@.len() as int) =~= text@);
        lemma_without_punctuation_is_free(text@);
    }
    out
}

/// Removes every apostrophe (U+0027) from `text`.
pub fn remove_apostrophes(text: &str) -> (out: String)
    ensures
        out@ == without_apostrophes(text@),
{
    let mut out = String::new();
    for c in it: text.chars()
        invariant
            it.seq() == text@,
            out@ == without_apostrophes(text@.take(it.index() as int)),
    {
        proof {
            lemma_filter_take_next(text@, it.index() as int, |c: char| c != '\'');
        }
        if c != '\'' {
            out.push(c);
        }
    }
    assert(text@.take(text@.len() as int) =~= text@);
    out
}

/// Decides whether a token passes the length bounds, in bytes.
pub fn length_in_bounds(text: &str) -> (b: bool)
    ensures
        b == within_length_bounds(text@),
{
    let n = text.as_bytes().len();
    1 < n && n < 50
}

/// The filter of the first `i + 1` elements, from the filter of the first `i`.
pub proof fn lemma_filter_take_next<A>(s: Seq<A>, i: int, pred: spec_fn(A) -> bool)
    requires
        0 <= i < s.len(),
    ensures
        s.take(i + 1).filter(pred) == if pred(s[i]) {
            s.take(i).filter(pred).push(s[i])
        } else {
            s.take(i).filter(pred)
        },
{
    assert(s.take(i + 1) =~= s.take(i).push(s[i]));
    s.take(i).lemma_filter_push(s[i], pred);
}

/// A filter changes nothing where every element already passes it.
pub proof fn lemma_filter_all_pass<A>(s: Seq<A>, pred: spec_fn(A) -> bool)
    requires
        forall|i: int| 0 <= i < s.len() ==> pred(#[trigger] s[i]),
    ensures
        s.filter(pred) == s,
    decreases s.len(),
{
    reveal(Seq::filter);
    if s.len() > 0 {
        lemma_filter_all_pass(s.drop_last(), pred);
        assert(s.drop_last().push(s.last()) =~= s);
    }
}

/// Mapping a function over elements that it leaves alone changes nothing.
pub proof fn lemma_map_all_fixed<A>(s: Seq<A>, f: spec_fn(A) -> A)
    requires
        forall|i: int| 0 <= i < s.len() ==> f(#[trigger] s[i]) == s[i],
    ensures
        s.map_values(f) == s,
{
    assert(s.map_values(f) =~= s);
}

/// What is left after stripping punctuation holds no punctuation.
pub proof fn lemma_without_punctuation_is_free(s: Seq<char>)
    ensures
        punctuation_free(without_punctuation(s)),
{
    let pred = |c: char| !is_ascii_punctuation(c);
    assert forall|i: int| 0 <= i < without_punctuation(s).len() implies !is_ascii_punctuation(
        #[trigger] without_punctuation(s)[i],
    ) by {
        s.lemma_filter_pred(pred, i);
    }
}

/// Stripping punctuation leaves a punctuation-free text as it is.
pub proof fn lemma_punctuation_free_is_fixed(s: Seq<char>)
    requires
        punctuation_free(s),
    ensures
        without_punctuation(s) == s,
        without_apostrophes(s) == s,
        cleaned(s) == s,
{
    lemma_filter_all_pass(s, |c: char| !is_ascii_punctuation(c));
    lemma_filter_all_pass(s, |c: char| c != '\'');
}

/// The apostrophe is ASCII punctuation, so stripping apostrophes after
/// punctuation removes nothing more, and stripping punctuation twice equals
/// stripping it once.
pub proof fn lemma_cleaned_is_without_punctuation(s: Seq<char>)
    ensures
        cleaned(s) == without_punctuation(s),
        without_punctuation(without_punctuation(s)) == without_punctuation(s),
        punctuation_free(cleaned(s)),
{
    lemma_without_punctuation_is_free(s);
    lemma_punctuation_free_is_fixed(without_punctuation(s));
}

} // verus!
