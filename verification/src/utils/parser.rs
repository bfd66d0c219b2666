//! Splitting a line into a command word and its arguments.

use vstd::prelude::*;
use crate::utils::text::{blank, is_space, is_whitespace};

verus! {

/// The words of `s`: its maximal runs of characters that are not whitespace,
/// from left to right. Defined by the last character: whitespace adds
/// nothing, a character that follows another word character lengthens the
/// last word, and any other character starts a new word.
pub open spec fn tokens(s: Seq<char>) -> Seq<Seq<char>>
    decreases s.len(),
{
    if s.len() == 0 {
        Seq::empty()
    } else {
        let before = tokens(s.drop_last());
        let c = s.last();
        if is_whitespace(c) {
            before
        } else if s.len() >= 2 && !is_whitespace(s[s.len() - 2]) {
            before.drop_last().push(before.last().push(c))
        } else {
            before.push(seq![c])
        }
    }
}

/// What a vector of string slices holds, each slice by its characters.
pub open spec fn word_views(v: Seq<&str>) -> Seq<Seq<char>> {
    Seq::new(v.len(), |i: int| v[i]@)
}

/// A word: at least one character, none of them whitespace.
pub open spec fn is_word(w: Seq<char>) -> bool {
    w.len() > 0 && forall|i: int| 0 <= i < w.len() ==> !is_whitespace(#[trigger] w[i])
}

/// A line has no words exactly when it is blank.
pub proof fn lemma_no_tokens_iff_blank(s: Seq<char>)
    ensures
        tokens(s).len() == 0 <==> blank(s),
    decreases s.len(),
{
    if s.len() > 0 {
        let head = s.drop_last();
        lemma_no_tokens_iff_blank(head);
        if is_whitespace(s.last()) {
            if blank(head) {
                assert forall|i: int| 0 <= i < s.len() implies is_whitespace(#[trigger] s[i]) by {
                    if i < head.len() {
                        assert(s[i] == head[i]);
                    }
                }
            } else {
                let k = choose|k: int| 0 <= k < head.len() && !is_whitespace(head[k]);
                assert(s[k] == head[k]);
            }
        } else {
            assert(!is_whitespace(s[s.len() - 1]));
            if s.len() >= 2 && !is_whitespace(s[s.len() - 2]) {
                assert(head[head.len() - 1] == s[s.len() - 2]);
                assert(!blank(head));
            }
        }
    }
}

/// Every word of a line has at least one character and holds no whitespace.
pub proof fn lemma_tokens_are_words(s: Seq<char>)
    ensures
        forall|k: int| 0 <= k < tokens(s).len() ==> is_word(#[trigger] tokens(s)[k]),
    decreases s.len(),
{
    if s.len() > 0 {
        let head = s.drop_last();
        let before = tokens(head);
        lemma_tokens_are_words(head);
        let c = s.last();
        if is_whitespace(c) {
        } else if s.len() >= 2 && !is_whitespace(s[s.len() - 2]) {
            assert(head[head.len() - 1] == s[s.len() - 2]);
            lemma_no_tokens_iff_blank(head);
            assert(before.len() > 0);
            let w = before.last().push(c);
            assert(is_word(before.last()));
            assert(is_word(w)) by {
                assert forall|i: int| 0 <= i < w.len() implies !is_whitespace(#[trigger] w[i]) by {
                    if i < before.last().len() {
                        assert(w[i] == before.last()[i]);
                    }
                }
            }
            assert forall|k: int| 0 <= k < tokens(s).len() implies is_word(#[trigger] tokens(s)[k]) by {
                if k < before.len() - 1 {
                    assert(tokens(s)[k] == before[k]);
                }
            }
        } else {
            assert(is_word(seq![c]));
            assert forall|k: int| 0 <= k < tokens(s).len() implies is_word(#[trigger] tokens(s)[k]) by {
                if k < before.len() {
                    assert(tokens(s)[k] == before[k]);
                }
            }
        }
    }
}

/// Whitespace after a text adds no word to it.
pub proof fn lemma_tokens_before_blank(s: Seq<char>, b: Seq<char>)
    requires
        blank(b),
    ensures
        tokens(s + b) == tokens(s),
    decreases b.len(),
{
    if b.len() == 0 {
        assert(s + b =~= s);
    } else {
        let shorter = b.drop_last();
        assert(is_whitespace(b[b.len() - 1]));
        assert forall|i: int| 0 <= i < shorter.len() implies is_whitespace(#[trigger] shorter[i]) by {
            assert(shorter[i] == b[i]);
        }
        lemma_tokens_before_blank(s, shorter);
        assert((s + b).drop_last() =~= s + shorter);
        assert((s + b).last() == b.last());
    }
}

/// A word with nothing but whitespace before it and after it is the one
/// word of the line.
pub proof fn lemma_single_word(a: Seq<char>, w: Seq<char>, b: Seq<char>)
    requires
        blank(a),
        blank(b),
        is_word(w),
    ensures
        tokens(a + w + b) == seq![w],
    decreases w.len(),
{
    lemma_tokens_before_blank(a + w, b);
    let c = w.last();
    let shorter = w.drop_last();
    assert(!is_whitespace(w[w.len() - 1]));
    assert((a + w).drop_last() =~= a + shorter);
    assert((a + w).last() == c);
    if shorter.len() == 0 {
        assert(a + shorter =~= a);
        lemma_no_tokens_iff_blank(a);
        if a.len() > 0 {
            assert((a + w)[(a + w).len() - 2] == a[a.len() - 1]);
        }
        assert(tokens(a + w) =~= seq![seq![c]]);
        assert(seq![c] =~= w);
    } else {
        assert forall|i: int| 0 <= i < shorter.len() implies !is_whitespace(
            #[trigger] shorter[i],
        ) by {
            assert(shorter[i] == w[i]);
        }
        lemma_single_word(a, shorter, Seq::empty());
        assert(a + shorter + Seq::<char>::empty() =~= a + shorter);
        assert((a + w)[(a + w).len() - 2] == shorter[shorter.len() - 1]);
        assert(shorter.push(c) =~= w);
        assert(tokens(a + w) =~= seq![w]);
    }
}

/// Reading from the left: a line that starts with whitespace `a`, the word
/// `w` and a whitespace character `c` has `w` as its first word, and after
/// it the words of the rest of the line.
pub proof fn lemma_first_word(a: Seq<char>, w: Seq<char>, c: char, rest: Seq<char>)
    requires
        blank(a),
        is_word(w),
        is_whitespace(c),
    ensures
        tokens(a + w + seq![c] + rest) == seq![w] + tokens(rest),
    decreases rest.len(),
{
    let front = a + w + seq![c];
    if rest.len() == 0 {
        assert(front + rest =~= front);
        assert(blank(seq![c]));
        lemma_single_word(a, w, seq![c]);
        assert(seq![w] + tokens(rest) =~= seq![w]);
    } else {
        let shorter = rest.drop_last();
        let d = rest.last();
        let line = front + rest;
        lemma_first_word(a, w, c, shorter);
        assert(line.drop_last() =~= front + shorter);
        assert(line.last() == d);
        if is_whitespace(d) {
        } else if shorter.len() == 0 {
            assert(line[line.len() - 2] == c);
            assert(tokens(rest) =~= seq![seq![d]]);
            assert(tokens(line) =~= seq![w] + tokens(rest));
        } else {
            assert(line[line.len() - 2] == rest[rest.len() - 2]);
            if !is_whitespace(rest[rest.len() - 2]) {
                assert(shorter[shorter.len() - 1] == rest[rest.len() - 2]);
                lemma_no_tokens_iff_blank(shorter);
                assert(tokens(shorter).len() > 0);
                assert(tokens(line) =~= seq![w] + tokens(rest));
            } else {
                assert(tokens(line) =~= seq![w] + tokens(rest));
            }
        }
    }
}

/// Splits `input` into its words.
pub fn split_words<'a>(input: &'a str) -> (words: Vec<&'a str>)
    ensures
        word_views(words@) == tokens(input@),
{
    let n: usize = input.unicode_len();
    let mut words: Vec<&'a str> = Vec::new();
    let mut start: usize = 0;
    let mut in_word: bool = false;
    let mut i: usize = 0;
    assert(input@.take(0).len() == 0);
    assert(word_views(words@) =~= tokens(input@.take(0)));
    while i < n
        invariant
            i <= n,
            n == input@.len(),
            in_word ==> start < i && !is_whitespace(input@[i - 1]) && tokens(input@.take(i as int))
                == word_views(words@).push(input@.subrange(start as int, i as int)),
            !in_word ==> (i == 0 || is_whitespace(input@[i - 1])) && tokens(
                input@.take(i as int),
            ) == word_views(words@),
        decreases n - i,
    {
        let c = input.get_char(i);
        let ghost seen = input@.take(i as int);
        let ghost next = input@.take(i + 1);
        let ghost found = word_views(words@);
        proof {
            assert(next.drop_last() =~= seen);
            assert(next.last() == c);
            if i >= 1 {
                assert(next[next.len() - 2] == input@[i - 1]);
            }
        }
        if is_space(c) {
            if in_word {
                let w = input.substring_char(start, i);
                words.push(w);
                in_word = false;
                assert(word_views(words@) =~= found.push(w@));
            }
        } else {
            if !in_word {
                start = i;
                in_word = true;
                assert(input@.subrange(i as int, i + 1) =~= seq![c]);
            } else {
                let ghost w = input@.subrange(start as int, i as int);
                assert(found.push(w).drop_last() =~= found);
                assert(w.push(c) =~= input@.subrange(start as int, i + 1));
            }
        }
        i += 1;
    }
    assert(input@.take(n as int) =~= input@);
    if in_word {
        let ghost found = word_views(words@);
        let w = input.substring_char(start, n);
        words.push(w);
        assert(word_views(words@) =~= found.push(w@));
    }
    words
}

/// Splits a line into its command word and its arguments. A blank line holds
/// no command; otherwise the first word is the command and the words after
/// it are the arguments, in their order.
pub fn parse_input<'a>(input: &'a str) -> (r: Option<(&'a str, Vec<&'a str>)>)
    ensures
        r is None <==> blank(input@),
        r is Some <==> tokens(input@).len() > 0,
        r matches Some((command, args)) ==> command@ == tokens(input@)[0] && word_views(args@)
            == tokens(input@).skip(1),
        r matches Some((command, args)) ==> is_word(command@) && forall|i: int|
            0 <= i < args@.len() ==> is_word(#[trigger] args@[i]@),
{
    proof {
        lemma_no_tokens_iff_blank(input@);
        lemma_tokens_are_words(input@);
    }
    let mut words = split_words(input);
    if words.len() == 0 {
        return None;
    }
    let ghost all = words@;
    let command = words.remove(0);
    assert(word_views(all)[0] == command@);
    assert(word_views(words@) =~= tokens(input@).skip(1)) by {
        assert forall|k: int| 0 <= k < words@.len() implies word_views(words@)[k] == tokens(
            input@,
        ).skip(1)[k] by {
            assert(words@[k] == all[k + 1]);
            assert(word_views(all)[k + 1] == all[k + 1]@);
        }
    }
    assert forall|i: int| 0 <= i < words@.len() implies is_word(#[trigger] words@[i]@) by {
        assert(words@[i] == all[i + 1]);
        assert(word_views(all)[i + 1] == all[i + 1]@);
    }
    Some((command, words))
}

} // verus!
