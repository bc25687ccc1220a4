//! The exclusion word list: loading it from the text of a word file, and
//! matching stimulus text against it.

use vstd::prelude::*;
use vstd::string::StrSliceExecFns;
use crate::events::words_view;
use crate::text::{contains_str, seq_contains};

verus! {

/// Some word of `words` occurs in `text` as a substring.
pub open spec fn spec_matches_any(text: Seq<char>, words: Seq<Seq<char>>) -> bool {
    exists|i: int| 0 <= i < words.len() && seq_contains(text, #[trigger] words[i])
}

/// Whether any exclusion word occurs in `text`. Matching is case-sensitive
/// substring containment, with no normalization.
pub fn text_matches_any(text: &str, words: &Vec<String>) -> (r: bool)
    ensures
        r == spec_matches_any(text@, words_view(words@)),
{
    let mut i: usize = 0;
    while i < words.len()
        invariant
            i <= words@.len(),
            forall|j: int| 0 <= j < i ==> !seq_contains(text@, #[trigger] words_view(words@)[j]),
        decreases words@.len() - i,
    {
        if contains_str(text, words[i].as_str()) {
            proof {
                assert(seq_contains(text@, words_view(words@)[i as int]));
            }
            return true;
        }
        i = i + 1;
    }
    false
}

/// Strip one carriage return from the end of a line, if it stands there.
pub open spec fn strip_cr(line: Seq<char>) -> Seq<char> {
    if line.len() > 0 && line.last() == '\r' {
        line.drop_last()
    } else {
        line
    }
}

/// The lines of `text` still to be cut, with `cur` the part of the current
/// line read so far. A line ends at a newline, which is dropped together
/// with a carriage return just before it; a last line without a newline is
/// kept whole, and a trailing newline opens no empty last line.
pub open spec fn lines_from(text: Seq<char>, cur: Seq<char>) -> Seq<Seq<char>>
    decreases text.len(),
{
    if text.len() == 0 {
        if cur.len() == 0 {
            seq![]
        } else {
            seq![cur]
        }
    } else if text[0] == '\n' {
        seq![strip_cr(cur)] + lines_from(text.skip(1), seq![])
    } else {
        lines_from(text.skip(1), cur.push(text[0]))
    }
}

/// The lines of `text`, split as a line reader splits them.
pub open spec fn spec_lines(text: Seq<char>) -> Seq<Seq<char>> {
    lines_from(text, seq![])
}

/// Split the text of a word file into one exclusion word per line, without
/// trimming or normalization beyond the line splitting itself.
pub fn load_exclude_words(text: &str) -> (words: Vec<String>)
    ensures
        words_view(words@) == spec_lines(text@),
{
    let len = text.unicode_len();
    let mut words: Vec<String> = Vec::new();
    let mut start: usize = 0;
    let mut pos: usize = 0;
    proof {
        assert(text@.skip(0) =~= text@);
        assert(text@.subrange(0, 0) =~= Seq::<char>::empty());
        assert(text@.subrange(0, 0) =~= seq![]);
        assert(words_view(words@) =~= Seq::<Seq<char>>::empty());
        assert(Seq::<Seq<char>>::empty() + lines_from(text@, text@.subrange(0, 0)) =~= lines_from(
            text@,
            text@.subrange(0, 0),
        ));
    }
    while pos < len
        invariant
            len == text@.len(),
            start <= pos <= len,
            forall|j: int| start <= j < pos ==> text@[j] != '\n',
            words_view(words@) + lines_from(
                text@.skip(pos as int),
                text@.subrange(start as int, pos as int),
            ) == spec_lines(text@),
        decreases len - pos,
    {
        let c = text.get_char(pos);
        if c == '\n' {
            let ghost cur = text@.subrange(start as int, pos as int);
            let line: &str = if pos > start && text.get_char(pos - 1) == '\r' {
                text.substring_char(start, pos - 1)
            } else {
                text.substring_char(start, pos)
            };
            proof {
                if pos > start && text@[pos - 1] == '\r' {
                    assert(cur.last() == text@[pos - 1]);
                    assert(line@ =~= strip_cr(cur));
                } else {
                    assert(line@ =~= strip_cr(cur));
                }
            }
            let ghost old_wv = words_view(words@);
            let owned = line.to_owned();
            words.push(owned);
            proof {
                assert(text@.skip(pos as int)[0] == text@[pos as int]);
                assert(text@.skip(pos as int).skip(1) =~= text@.skip(pos + 1));
                assert(lines_from(text@.skip(pos as int), cur) == seq![strip_cr(cur)]
                    + lines_from(text@.skip(pos + 1), seq![]));
                assert(words_view(words@) =~= old_wv.push(strip_cr(cur)));
                assert(text@.subrange(pos + 1, pos + 1) =~= Seq::<char>::empty());
                assert(old_wv.push(strip_cr(cur)) + lines_from(text@.skip(pos + 1), seq![]) =~= old_wv
                    + (seq![strip_cr(cur)] + lines_from(text@.skip(pos + 1), seq![])));
            }
            pos = pos + 1;
            start = pos;
        } else {
            proof {
                let ghost cur = text@.subrange(start as int, pos as int);
                assert(text@.skip(pos as int)[0] == text@[pos as int]);
                assert(text@.skip(pos as int).skip(1) =~= text@.skip(pos + 1));
                assert(cur.push(text@[pos as int]) =~= text@.subrange(start as int, pos + 1));
            }
            pos = pos + 1;
        }
    }
    if start < len {
        let ghost cur = text@.subrange(start as int, len as int);
        let ghost old_wv = words_view(words@);
        let line = text.substring_char(start, len);
        let owned = line.to_owned();
        words.push(owned);
        proof {
            assert(text@.skip(len as int) =~= Seq::<char>::empty());
            assert(lines_from(text@.skip(len as int), cur) == seq![cur]);
            assert(words_view(words@) =~= old_wv.push(cur));
            assert(old_wv.push(cur) =~= old_wv + seq![cur]);
        }
    } else {
        proof {
            assert(text@.skip(len as int) =~= Seq::<char>::empty());
            assert(text@.subrange(start as int, len as int).len() == 0);
            assert(words_view(words@) + lines_from(
                text@.skip(len as int),
                text@.subrange(start as int, len as int),
            ) =~= words_view(words@));
        }
    }
    words
}

} // verus!
