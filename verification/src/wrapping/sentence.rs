//! Sentence splitting using a regex heuristic for the end of a sentence.

use vstd::prelude::*;
use crate::regex_scan::{is_match, regex_finds};
use crate::text::{
    buf_views, chars_of, join, join_bufs, push_buf, split_whitespace_chars, split_ws, string_of,
    strings_of, trim, trim_chars, views,
};

verus! {

/// End of a sentence: a word of two or more letters ending in a lowercase
/// letter, then `.`, `?` or `!`, optionally with a closing quote or
/// parenthesis on either side of it, then only spaces.
pub const SENTENCE_END_PATTERN: &'static str = r"(\b\p{L}+[\p{Ll}])([.?!]['\x22\u{2019}\u{201d})]?|['\x22\u{2019}\u{201d})][.?!]) *$";

/// Minimum sentence length (in characters, counting single spaces between words)
/// used by default.
pub const SENTENCE_MIN_LENGTH: usize = 15;

pub open spec fn ends_sentence(word: Seq<char>) -> bool {
    regex_finds(SENTENCE_END_PATTERN@, word)
}

/// Check if a word looks like the end of a sentence.
pub fn heuristic_end_of_sentence(word: &str) -> (b: bool)
    ensures
        b == ends_sentence(word@),
{
    is_match(SENTENCE_END_PATTERN, word)
}

/// Length of a sentence made of `words`: their characters plus one space
/// between consecutive words.
pub open spec fn sentence_length(words: Seq<Seq<char>>) -> int
    decreases words.len(),
{
    if words.len() == 0 {
        0
    } else if words.len() == 1 {
        words[0].len() as int
    } else {
        sentence_length(words.drop_last()) + 1 + words.last().len()
    }
}

/// Sentence scan over words: finished sentences and the words of the current
/// sentence. A sentence ends after a word that ends a sentence once it is at
/// least `min_length` long.
pub open spec fn sentence_scan(words: Seq<Seq<char>>, min_length: int) -> (
    Seq<Seq<char>>,
    Seq<Seq<char>>,
)
    decreases words.len(),
{
    if words.len() == 0 {
        (Seq::empty(), Seq::empty())
    } else {
        let (done, cur) = sentence_scan(words.drop_last(), min_length);
        let cur2 = cur.push(words.last());
        if ends_sentence(words.last()) && sentence_length(cur2) >= min_length {
            (done.push(join(cur2, seq![' '])), Seq::empty())
        } else {
            (done, cur2)
        }
    }
}

/// The sentences of a text, each with its words joined by single spaces.
pub open spec fn sentences_of(text: Seq<char>, min_length: int) -> Seq<Seq<char>> {
    let (done, cur) = sentence_scan(split_ws(text), min_length);
    if cur.len() > 0 {
        done.push(join(cur, seq![' ']))
    } else {
        done
    }
}

fn words_to_sentences(words: &Vec<Vec<char>>, min_length: usize) -> (r: Vec<Vec<char>>)
    ensures
        buf_views(r@) == ({
            let (done, cur) = sentence_scan(buf_views(words@), min_length as int);
            if cur.len() > 0 {
                done.push(join(cur, seq![' ']))
            } else {
                done
            }
        }),
{
    let ghost ws = buf_views(words@);
    let mut sp: Vec<char> = Vec::new();
    sp.push(' ');
    assert(sp@ =~= seq![' ']);
    let mut done: Vec<Vec<char>> = Vec::new();
    let mut cur: Vec<Vec<char>> = Vec::new();
    // `len_capped` is the sentence length of `cur`, capped at `min_length`.
    let mut len_capped: usize = 0;
    let mut i: usize = 0;
    assert(buf_views(done@) =~= Seq::<Seq<char>>::empty());
    assert(buf_views(cur@) =~= Seq::<Seq<char>>::empty());
    while i < words.len()
        invariant
            i <= words.len(),
            ws == buf_views(words@),
            sp@ == seq![' '],
            (buf_views(done@), buf_views(cur@)) == sentence_scan(ws.take(i as int), min_length as int),
            len_capped as int == if sentence_length(buf_views(cur@)) <= min_length {
                sentence_length(buf_views(cur@))
            } else {
                min_length as int
            },
        decreases words.len() - i,
    {
        proof {
            assert(ws.take(i + 1).drop_last() =~= ws.take(i as int));
            assert(ws.take(i + 1).last() == words@[i as int]@);
        }
        let ghost before = buf_views(cur@);
        let wb: usize = if words[i].len() <= min_length { words[i].len() } else { min_length };
        let sep: usize = if cur.len() == 0 { 0 } else { 1 };
        let w = slice_copy(&words[i]);
        push_buf(&mut cur, w);
        proof {
            let after = buf_views(cur@);
            assert(after.drop_last() =~= before);
            assert(after.last() == words@[i as int]@);
            if before.len() == 0 {
                assert(after.len() == 1);
            }
        }
        let t = (len_capped as u128) + (sep as u128) + (wb as u128);
        len_capped = if t >= min_length as u128 { min_length } else { t as usize };
        let w_str = string_of(&words[i]);
        if heuristic_end_of_sentence(w_str.as_str()) && len_capped >= min_length {
            let s = join_bufs(&cur, &sp);
            push_buf(&mut done, s);
            cur = Vec::new();
            len_capped = 0;
            assert(buf_views(cur@) =~= Seq::<Seq<char>>::empty());
        }
        i += 1;
    }
    assert(ws.take(words.len() as int) =~= ws);
    if cur.len() > 0 {
        let s = join_bufs(&cur, &sp);
        push_buf(&mut done, s);
    }
    done
}

fn slice_copy(v: &Vec<char>) -> (r: Vec<char>)
    ensures
        r@ == v@,
{
    let r = crate::text::slice_of(v, 0, v.len());
    assert(v@.subrange(0, v@.len() as int) =~= v@);
    r
}

/// Split text into sentences using an approximate, fast regex heuristic.
///
/// Words are the white-space separated words of the text; a sentence ends
/// after a word that looks like the end of a sentence once the sentence is at
/// least `min_length` characters long. Sentences are returned with single spaces
/// between their words.
pub fn split_sentences_regex(text: &str, min_length: usize) -> (r: Vec<String>)
    ensures
        views(r@) == sentences_of(text@, min_length as int),
{
    let v = chars_of(text);
    let words = split_whitespace_chars(&v);
    let s = words_to_sentences(&words, min_length);
    strings_of(&s)
}

/// Return the first n sentences from the text.
pub fn first_sentences(text: &str, n: usize, min_length: usize) -> (r: Vec<String>)
    ensures
        views(r@) == sentences_of(text@, min_length as int).take(
            if n <= sentences_of(text@, min_length as int).len() {
                n as int
            } else {
                sentences_of(text@, min_length as int).len() as int
            },
        ),
{
    let v = chars_of(text);
    let words = split_whitespace_chars(&v);
    let s = words_to_sentences(&words, min_length);
    let ghost all = buf_views(s@);
    let mut r: Vec<Vec<char>> = Vec::new();
    let mut i: usize = 0;
    assert(buf_views(r@) =~= all.take(0));
    while i < s.len() && i < n
        invariant
            i <= s.len(),
            i <= n,
            all == buf_views(s@),
            buf_views(r@) == all.take(i as int),
        decreases s.len() - i,
    {
        let c = slice_copy(&s[i]);
        push_buf(&mut r, c);
        assert(buf_views(r@) =~= all.take(i + 1));
        i += 1;
    }
    assert(all == sentences_of(text@, min_length as int));
    strings_of(&r)
}

/// Return the first sentence from the text, or the trimmed text when it has
/// no sentence (no words).
pub fn first_sentence(text: &str, min_length: usize) -> (r: String)
    ensures
        r@ == if sentences_of(text@, min_length as int).len() > 0 {
            sentences_of(text@, min_length as int)[0]
        } else {
            trim(text@)
        },
{
    let v = chars_of(text);
    let words = split_whitespace_chars(&v);
    let s = words_to_sentences(&words, min_length);
    if s.len() > 0 {
        string_of(&s[0])
    } else {
        let t = trim_chars(&v);
        string_of(&t)
    }
}

/// Sentence splitting keeps every word in order: the sentences joined with
/// single spaces are the words joined with single spaces.
pub proof fn lemma_sentences_preserve_words(text: Seq<char>, min_length: int)
    ensures
        join(sentences_of(text, min_length), seq![' ']) == join(split_ws(text), seq![' ']),
{
    crate::text::lemma_split_ws_proper(text);
    lemma_sentence_scan(split_ws(text), min_length);
    let (done, cur) = sentence_scan(split_ws(text), min_length);
    if cur.len() == 0 {
        assert(all_parts(done, cur) == done);
    }
}

/// Finished sentences with the current one appended when non-empty.
pub open spec fn all_parts(done: Seq<Seq<char>>, cur: Seq<Seq<char>>) -> Seq<Seq<char>> {
    if cur.len() > 0 {
        done.push(join(cur, seq![' ']))
    } else {
        done
    }
}

proof fn lemma_sentence_scan(words: Seq<Seq<char>>, min_length: int)
    ensures
        ({
            let (done, cur) = sentence_scan(words, min_length);
            &&& join(all_parts(done, cur), seq![' ']) == join(words, seq![' '])
            &&& (words.len() == 0 ==> done.len() == 0 && cur.len() == 0)
        }),
    decreases words.len(),
{
    if words.len() > 0 {
        let prev = words.drop_last();
        lemma_sentence_scan(prev, min_length);
        let (done, cur) = sentence_scan(prev, min_length);
        let w = words.last();
        let sp = seq![' '];
        let cur2 = cur.push(w);
        crate::text::lemma_join_push(prev, sp, w);
        assert(words =~= prev.push(w));
        crate::text::lemma_join_push(cur, sp, w);
        assert(cur2.drop_last() =~= cur);
        if cur.len() > 0 {
            crate::text::lemma_join_push(done, sp, join(cur, sp));
            crate::text::lemma_join_push(done, sp, join(cur2, sp));
            assert(join(done.push(join(cur2, sp)), sp) =~= join(all_parts(done, cur), sp) + sp + w);
        } else {
            crate::text::lemma_join_push(done, sp, join(cur2, sp));
            if done.len() > 0 {
                assert(join(done.push(join(cur2, sp)), sp) =~= join(all_parts(done, cur), sp) + sp + w);
            } else {
                assert(prev.len() == 0);
                assert(join(done.push(join(cur2, sp)), sp) =~= w);
            }
        }
    }
}

} // verus!
