//! The visible text of an HTML page.

use crate::words::{all_words, lemma_all_words_push, split_whitespace};
use vstd::prelude::*;

verus! {

/// For each element of the parsed document, in the order in which `scraper`
/// selects them under the universal selector, the text nodes below it; `None`
/// where the selector cannot be built.
pub uninterp spec fn element_texts(html: Seq<char>) -> Option<Seq<Seq<Seq<char>>>>;

/// Calls `scraper::Html::parse_document`, selects every element with the
/// selector `*` and hands out the text nodes of each, which depend on the
/// HTML text alone. A text node is listed under every element that contains it.
#[verifier::external_body]
fn select_element_texts(html: &str) -> (r: Option<Vec<Vec<String>>>)
    ensures
        match r {
            Some(elements) => element_texts(html@) == Some(elements.deep_view()),
            None => element_texts(html@) is None,
        },
{
    let document = scraper::Html::parse_document(html);
    match scraper::Selector::parse("*") {
        Ok(selector) => Some(
            document.select(&selector).map(|el| el.text().map(str::to_string).collect()).collect(),
        ),
        Err(_) => None,
    }
}

/// The raw tokens of a page: the words of every text node, the nodes taken
/// element by element.
pub open spec fn raw_tokens_of(elements: Seq<Seq<Seq<char>>>) -> Seq<Seq<char>> {
    all_words(elements.flatten())
}

/// Flattens the text nodes of the selected elements into one ordered list of
/// white-space-delimited raw tokens.
pub fn raw_tokens(elements: &Vec<Vec<String>>) -> (out: Vec<String>)
    ensures
        out.deep_view() == raw_tokens_of(elements.deep_view()),
{
    let ghost nodes = elements.deep_view();
    let mut out: Vec<String> = Vec::new();
    assert(nodes.take(0).flatten() =~= Seq::<Seq<char>>::empty());
    assert(all_words(Seq::<Seq<char>>::empty()) =~= Seq::<Seq<char>>::empty());
    for i in 0..elements.len()
        invariant
            nodes == elements.deep_view(),
            out.deep_view() == all_words(nodes.take(i as int).flatten()),
    {
        let element = &elements[i];
        let ghost done = nodes.take(i as int).flatten();
        proof {
            assert(nodes.take(i + 1) =~= nodes.take(i as int).push(element.deep_view()));
            nodes.take(i as int).lemma_flatten_push(element.deep_view());
            assert(done + element.deep_view().take(0) =~= done);
        }
        for j in 0..element.len()
            invariant
                out.deep_view() == all_words(done + element.deep_view().take(j as int)),
        {
            let split = split_whitespace(element[j].as_str());
            let ghost before = done + element.deep_view().take(j as int);
            proof {
                assert(done + element.deep_view().take(j + 1) =~= before.push(element[j as int]@));
                lemma_all_words_push(before, element[j as int]@);
                assert(split.deep_view().take(0) =~= Seq::<Seq<char>>::empty());
            }
            let ghost start = out.deep_view();
            for k in 0..split.len()
                invariant
                    out.deep_view() == start + split.deep_view().take(k as int),
            {
                let ghost so_far = out.deep_view();
                out.push(split[k].clone());
                assert(out.deep_view() =~= so_far.push(split[k as int]@));
                assert(start + split.deep_view().take(k + 1) =~= (start + split.deep_view().take(
                    k as int,
                )).push(split[k as int]@));
            }
            assert(split.deep_view().take(split.len() as int) =~= split.deep_view());
        }
        assert(element.deep_view().take(element.len() as int) =~= element.deep_view());
    }
    assert(nodes.take(elements.len() as int) =~= nodes);
    out
}

/// The raw tokens of an HTML page, or `None` where the universal selector
/// cannot be built and the page is dropped.
pub fn page_tokens(html: &str) -> (r: Option<Vec<String>>)
    ensures
        match r {
            Some(tokens) => element_texts(html@) matches Some(elements) && tokens.deep_view()
                == raw_tokens_of(elements),
            None => element_texts(html@) is None,
        },
{
    match select_element_texts(html) {
        Some(elements) => Some(raw_tokens(&elements)),
        None => None,
    }
}

} // verus!
