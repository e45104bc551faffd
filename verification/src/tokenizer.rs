//! The default tokenizer: a text is split on whitespace and each piece is
//! put in lower case.

use crate::token_map::texts;
use vstd::prelude::*;
use vstd::utf8::is_ascii_chars;

verus! {

/// A normalized piece of text: the unit that the index stores and finds.
pub type Token = String;

/// Whether `c` is whitespace: whether it has the Unicode property
/// `White_Space`, which eleven points and ranges of code points have.
pub open spec fn is_white_space(c: char) -> bool {
    let code = c as u32;
    ||| 0x0009 <= code <= 0x000D
    ||| code == 0x0020
    ||| code == 0x0085
    ||| code == 0x00A0
    ||| code == 0x1680
    ||| 0x2000 <= code <= 0x200A
    ||| code == 0x2028
    ||| code == 0x2029
    ||| code == 0x202F
    ||| code == 0x205F
    ||| code == 0x3000
}

/// The lower case of an ASCII character: a capital letter becomes the small
/// one, and any other character stays.
pub open spec fn ascii_lower(c: char) -> char {
    if 'A' <= c <= 'Z' {
        ((c as u8) + 32) as char
    } else {
        c
    }
}

/// The lower case of a string of other than ASCII characters alone, as
/// `str::to_lowercase` gives it.
pub uninterp spec fn unicode_lowercase(s: Seq<char>) -> Seq<char>;

/// The lower case of `s`, as `str::to_lowercase` gives it: in a string of
/// ASCII characters each capital letter becomes the small one; for any
/// other string it is what the Unicode mapping gives.
pub open spec fn lowercase(s: Seq<char>) -> Seq<char> {
    if is_ascii_chars(s) {
        Seq::new(s.len(), |i: int| ascii_lower(s[i]))
    } else {
        unicode_lowercase(s)
    }
}

/// `char::is_whitespace` answers by the Unicode property `White_Space`.
pub assume_specification[ char::is_whitespace ](c: char) -> (white: bool)
    ensures
        white == is_white_space(c),
;

/// `str::to_lowercase` returns the lower case of the whole string. For a
/// string of ASCII characters that is the string with its capital letters
/// made small; for any other string `unicode_lowercase` names it.
pub assume_specification[ str::to_lowercase ](s: &str) -> (lower: String)
    ensures
        lower@ == lowercase(s@),
        !is_ascii_chars(s@) ==> lower@ == unicode_lowercase(s@),
;

/// `String::push` appends the character to the end of the string.
pub assume_specification[ String::push ](s: &mut String, c: char)
    ensures
        final(s)@ == old(s)@.push(c),
;

/// The words of `text`: its longest runs of characters that are not
/// whitespace, from left to right. Read from the left, a whitespace
/// character adds nothing; any other character extends the last word where
/// the character before it belongs to that word, and starts a new word
/// otherwise.
pub open spec fn words(text: Seq<char>) -> Seq<Seq<char>>
    decreases text.len(),
{
    if text.len() == 0 {
        Seq::empty()
    } else if is_white_space(text.last()) {
        words(text.drop_last())
    } else {
        let before = words(text.drop_last());
        if text.len() >= 2 && !is_white_space(text[text.len() - 2]) && before.len() > 0 {
            before.drop_last().push(before.last().push(text.last()))
        } else {
            before.push(seq![text.last()])
        }
    }
}

/// The tokens of `text` under the default tokenizer: its words, each in
/// lower case.
pub open spec fn default_tokens(text: Seq<char>) -> Seq<Seq<char>> {
    Seq::new(words(text).len(), |i: int| lowercase(words(text)[i]))
}

/// The finished words, and the word being read where one is.
spec fn with_pending(finished: Seq<Seq<char>>, pending: Seq<char>) -> Seq<Seq<char>> {
    if pending.len() == 0 {
        finished
    } else {
        finished.push(pending)
    }
}

/// Splits `text` on whitespace and puts each piece in lower case.
pub fn default_tokenizer(text: &str) -> (tokens: Vec<Token>)
    ensures
        texts(tokens@) == default_tokens(text@),
{
    let mut tokens: Vec<Token> = Vec::new();
    let mut word = String::new();
    let ghost mut finished: Seq<Seq<char>> = Seq::empty();
    for c in it: text.chars()
        invariant
            it.seq() == text@,
            tokens.len() == finished.len(),
            forall|k: int|
                0 <= k < finished.len() ==> (#[trigger] tokens[k])@ == lowercase(finished[k]),
            with_pending(finished, word@) == words(text@.take(it.index() as int)),
            word@.len() > 0 <==> it.index() > 0 && !is_white_space(text@[it.index() - 1]),
    {
        let ghost read = text@.take(it.index() as int);
        let ghost next = text@.take(it.index() + 1);
        assert(next.drop_last() == read);
        if c.is_whitespace() {
            if !word.as_str().is_empty() {
                proof {
                    finished = finished.push(word@);
                }
                tokens.push(word.as_str().to_lowercase());
                word = String::new();
            }
        } else {
            let ghost old_word = word@;
            word.push(c);
            proof {
                if old_word.len() == 0 {
                    assert(word@ =~= seq![c]);
                }
            }
        }
    }
    assert(text@.take(text@.len() as int) == text@);
    if !word.as_str().is_empty() {
        tokens.push(word.as_str().to_lowercase());
    }
    tokens
}

} // verus!
