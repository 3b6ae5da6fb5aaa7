//! Texts as sequences of characters.

use vstd::prelude::*;
use vstd::std_specs::iter::IteratorSpec;

verus! {

/// The characters of a text, in order.
pub fn chars_of(text: &str) -> (chars: Vec<char>)
    ensures
        chars@ == text@,
{
    broadcast use vstd::string::axiom_spec_iter, vstd::string::next_postcondition;

    let mut chars: Vec<char> = Vec::new();
    let mut it = text.chars();
    loop
        invariant
            chars@ + it.remaining() == text@,
            it.obeys_prophetic_iter_laws(),
            it.decrease() is Some,
        ensures
            chars@ == text@,
        decreases it.decrease()->0,
    {
        let ghost before = it.remaining();
        match it.next() {
            Some(c) => {
                chars.push(c);
                assert(chars@ + it.remaining() =~= text@) by {
                    assert(before =~= seq![c] + before.drop_first());
                }
            },
            None => {
                assert(chars@ =~= text@);
                break ;
            },
        }
    }
    chars
}

/// Calls `String::push`, which appends one character to a text.
#[verifier::external_body]
pub(crate) fn push_char(text: &mut String, c: char)
    ensures
        final(text)@ == old(text)@.push(c),
{
    text.push(c);
}

/// The text made of the characters from place `from` up to place `to`.
pub fn text_of(chars: &Vec<char>, from: usize, to: usize) -> (text: String)
    requires
        from <= to <= chars@.len(),
    ensures
        text@ == chars@.subrange(from as int, to as int),
{
    let mut text = String::new();
    let mut i: usize = from;
    while i < to
        invariant
            from <= i <= to <= chars@.len(),
            text@ == chars@.subrange(from as int, i as int),
        decreases to - i,
    {
        push_char(&mut text, chars[i]);
        i += 1;
        assert(text@ =~= chars@.subrange(from as int, i as int));
    }
    text
}

/// Whether `c` is white space, as Unicode defines it.
pub open spec fn is_space(c: char) -> bool {
    ||| '\u{9}' <= c <= '\u{d}'
    ||| c == ' '
    ||| c == '\u{85}'
    ||| c == '\u{a0}'
    ||| c == '\u{1680}'
    ||| '\u{2000}' <= c <= '\u{200a}'
    ||| c == '\u{2028}'
    ||| c == '\u{2029}'
    ||| c == '\u{202f}'
    ||| c == '\u{205f}'
    ||| c == '\u{3000}'
}

/// Tells whether `c` is white space.
pub fn char_is_space(c: char) -> (space: bool)
    ensures
        space == is_space(c),
{
    ('\u{9}' <= c && c <= '\u{d}') || c == ' ' || c == '\u{85}' || c == '\u{a0}' || c
        == '\u{1680}' || ('\u{2000}' <= c && c <= '\u{200a}') || c == '\u{2028}' || c
        == '\u{2029}' || c == '\u{202f}' || c == '\u{205f}' || c == '\u{3000}'
}

/// The first place at or after `from` that holds white space, or the end of
/// the text.
pub open spec fn word_end(text: Seq<char>, from: int) -> int
    decreases text.len() - from,
{
    if 0 <= from < text.len() && !is_space(text[from]) {
        word_end(text, from + 1)
    } else {
        from
    }
}

/// Whether a word starts at place `at`: the place holds no white space,
/// and the place before it, if there is one, does.
pub open spec fn starts_word(text: Seq<char>, at: int) -> bool {
    &&& 0 <= at < text.len()
    &&& !is_space(text[at])
    &&& (at == 0 || is_space(text[at - 1]))
}

/// The words that start at place `from` or behind it, in order. A word is a
/// longest run of characters that are no white space.
pub open spec fn words_from(text: Seq<char>, from: int) -> Seq<Seq<char>>
    decreases text.len() - from,
{
    if from < 0 || from >= text.len() {
        Seq::empty()
    } else if starts_word(text, from) {
        seq![text.subrange(from, word_end(text, from))] + words_from(text, from + 1)
    } else {
        words_from(text, from + 1)
    }
}

/// A word ends behind where it starts, and within the text.
pub proof fn lemma_word_end(text: Seq<char>, from: int)
    requires
        0 <= from <= text.len(),
    ensures
        from <= word_end(text, from) <= text.len(),
        from < text.len() && !is_space(text[from]) ==> from < word_end(text, from),
    decreases text.len() - from,
{
    if from < text.len() && !is_space(text[from]) {
        lemma_word_end(text, from + 1);
    }
}

/// The words of a text.
pub open spec fn words_of(text: Seq<char>) -> Seq<Seq<char>> {
    words_from(text, 0)
}

/// The characters of each of some texts.
pub open spec fn texts(list: Seq<String>) -> Seq<Seq<char>> {
    Seq::new(list.len(), |i: int| list[i]@)
}

/// Splits a text into its words.
pub fn split_words(line: &str) -> (words: Vec<String>)
    ensures
        texts(words@) == words_of(line@),
{
    let chars = chars_of(line);
    let n = chars.len();
    let mut words: Vec<String> = Vec::new();
    let mut i: usize = 0;
    while i < n
        invariant
            i <= n,
            n == chars@.len(),
            chars@ == line@,
            i == 0 || i == n || is_space(chars@[i - 1]) || is_space(chars@[i as int]),
            texts(words@) + words_from(chars@, i as int) == words_of(chars@),
        decreases n - i,
    {
        if char_is_space(chars[i]) {
            i += 1;
        } else {
            let start = i;
            i += 1;
            while i < n && !char_is_space(chars[i])
                invariant
                    start < i <= n,
                    n == chars@.len(),
                    !is_space(chars@[i - 1]),
                    word_end(chars@, start as int) == word_end(chars@, i as int),
                    words_from(chars@, start + 1) == words_from(chars@, i as int),
                decreases n - i,
            {
                i += 1;
            }
            let ghost before = texts(words@);
            words.push(text_of(&chars, start, i));
            proof {
                let word = chars@.subrange(start as int, i as int);
                assert(texts(words@) =~= before.push(word));
                assert(starts_word(chars@, start as int));
                assert(words_from(chars@, start as int) == seq![word] + words_from(
                    chars@,
                    i as int,
                ));
                assert(texts(words@) + words_from(chars@, i as int) =~= before + words_from(
                    chars@,
                    start as int,
                ));
            }
        }
    }
    assert(texts(words@) + words_from(chars@, n as int) =~= texts(words@));
    words
}

} // verus!
