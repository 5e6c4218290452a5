//! White space: the words of a text, and a text without the white space at
//! its ends.

use crate::text::{chars_of, string_of, texts};
use vstd::prelude::*;

verus! {

/// Whether a character is white space: the characters that Unicode gives
/// the property `White_Space`.
pub open spec fn is_space(c: char) -> bool {
    ||| ('\u{9}' <= c && c <= '\u{d}')
    ||| c == ' '
    ||| c == '\u{85}'
    ||| c == '\u{a0}'
    ||| c == '\u{1680}'
    ||| ('\u{2000}' <= c && c <= '\u{200a}')
    ||| c == '\u{2028}'
    ||| c == '\u{2029}'
    ||| c == '\u{202f}'
    ||| c == '\u{205f}'
    ||| c == '\u{3000}'
}

/// Executable form of [`is_space`].
pub fn space(c: char) -> (white: bool)
    ensures
        white == is_space(c),
{
    ('\u{9}' <= c && c <= '\u{d}') || c == ' ' || c == '\u{85}' || c == '\u{a0}' || c
        == '\u{1680}' || ('\u{2000}' <= c && c <= '\u{200a}') || c == '\u{2028}' || c
        == '\u{2029}' || c == '\u{202f}' || c == '\u{205f}' || c == '\u{3000}'
}

/// The word that is still open at the end of `s`: the characters after the
/// last white space.
pub open spec fn open_word(s: Seq<char>) -> Seq<char>
    decreases s.len(),
{
    if s.len() == 0 || is_space(s.last()) {
        Seq::<char>::empty()
    } else {
        open_word(s.drop_last()).push(s.last())
    }
}

/// The words of `s` that are closed by white space.
pub open spec fn closed_words(s: Seq<char>) -> Seq<Seq<char>>
    decreases s.len(),
{
    if s.len() == 0 {
        Seq::<Seq<char>>::empty()
    } else if is_space(s.last()) && open_word(s.drop_last()).len() > 0 {
        closed_words(s.drop_last()).push(open_word(s.drop_last()))
    } else {
        closed_words(s.drop_last())
    }
}

/// The words of `s`: its longest runs of characters that are not white
/// space, in order. No word is empty.
pub open spec fn words(s: Seq<char>) -> Seq<Seq<char>> {
    if open_word(s).len() > 0 {
        closed_words(s).push(open_word(s))
    } else {
        closed_words(s)
    }
}

/// Splits a text into its words.
pub fn split_words(s: &str) -> (parts: Vec<String>)
    ensures
        texts(parts@) == words(s@),
{
    let cs = chars_of(s);
    let mut parts: Vec<String> = Vec::new();
    let mut word: Vec<char> = Vec::new();
    let mut i: usize = 0;
    proof {
        assert(texts(parts@) =~= closed_words(s@.take(0)));
    }
    while i < cs.len()
        invariant
            i <= cs.len(),
            cs@ == s@,
            texts(parts@) == closed_words(s@.take(i as int)),
            word@ == open_word(s@.take(i as int)),
        decreases cs.len() - i,
    {
        let ghost done = texts(parts@);
        proof {
            assert(s@.take(i + 1).drop_last() =~= s@.take(i as int));
        }
        if space(cs[i]) {
            if word.len() > 0 {
                parts.push(string_of(word.as_slice()));
                proof {
                    assert(texts(parts@) =~= done.push(word@));
                }
            }
            word = Vec::new();
        } else {
            word.push(cs[i]);
        }
        i += 1;
    }
    proof {
        assert(s@.take(s@.len() as int) =~= s@);
    }
    let ghost done = texts(parts@);
    if word.len() > 0 {
        parts.push(string_of(word.as_slice()));
        proof {
            assert(texts(parts@) =~= done.push(word@));
        }
    }
    parts
}

/// The text without the white space at its end.
pub open spec fn trimmed_end(s: Seq<char>) -> Seq<char>
    decreases s.len(),
{
    if s.len() > 0 && is_space(s.last()) {
        trimmed_end(s.drop_last())
    } else {
        s
    }
}

/// The text without the white space at its start.
pub open spec fn trimmed_start(s: Seq<char>) -> Seq<char>
    decreases s.len(),
{
    if s.len() > 0 && is_space(s.first()) {
        trimmed_start(s.drop_first())
    } else {
        s
    }
}

/// The text without the white space at its two ends.
pub open spec fn trimmed(s: Seq<char>) -> Seq<char> {
    trimmed_end(trimmed_start(s))
}

/// Cuts the white space off the two ends of a text.
pub fn trim_chars(cs: &[char]) -> (out: Vec<char>)
    ensures
        out@ == trimmed(cs@),
{
    let mut start: usize = 0;
    proof {
        assert(cs@.skip(0) =~= cs@);
    }
    while start < cs.len() && space(cs[start])
        invariant
            start <= cs.len(),
            trimmed_start(cs@) == trimmed_start(cs@.skip(start as int)),
        decreases cs.len() - start,
    {
        proof {
            assert(cs@.skip(start as int).first() == cs@[start as int]);
            assert(cs@.skip(start as int).drop_first() =~= cs@.skip(start + 1));
        }
        start += 1;
    }
    proof {
        if start < cs.len() {
            assert(cs@.skip(start as int).first() == cs@[start as int]);
        }
    }
    let ghost rest = cs@.skip(start as int);
    let mut end: usize = cs.len();
    proof {
        assert(cs@.subrange(start as int, end as int) =~= rest);
    }
    while end > start && space(cs[end - 1])
        invariant
            start <= end <= cs.len(),
            trimmed_end(rest) == trimmed_end(cs@.subrange(start as int, end as int)),
        decreases end,
    {
        proof {
            let part = cs@.subrange(start as int, end as int);
            assert(part.last() == cs@[end - 1]);
            assert(part.drop_last() =~= cs@.subrange(start as int, end - 1));
        }
        end -= 1;
    }
    proof {
        let part = cs@.subrange(start as int, end as int);
        if end > start {
            assert(part.last() == cs@[end - 1]);
        }
    }
    let mut out: Vec<char> = Vec::new();
    let mut i: usize = start;
    while i < end
        invariant
            start <= i <= end,
            end <= cs.len(),
            out@ == cs@.subrange(start as int, i as int),
        decreases end - i,
    {
        out.push(cs[i]);
        proof {
            assert(cs@.subrange(start as int, i + 1) =~= cs@.subrange(start as int, i as int).push(
                cs@[i as int],
            ));
        }
        i += 1;
    }
    out
}

} // verus!
