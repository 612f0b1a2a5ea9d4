//! Characters and tokens of trace text.
//!
//! A line of a trace is a run of tokens separated by white space. The
//! functions here cut a line into its tokens and take single tokens apart:
//! they strip a key such as `pid=`, find the last separator, and drop
//! brackets. Everything is stated over the characters of the text, so a
//! token is a `Seq<char>` in contracts.

use vstd::prelude::*;

verus! {

/// Whether `c` separates tokens: the characters with the Unicode property
/// `White_Space`.
pub open spec fn is_space(c: char) -> bool {
    ||| ('\u{9}' <= c && c <= '\u{d}')
    ||| c == ' '
    ||| c == '\u{85}'
    ||| c == '\u{a0}'
    ||| c == '\u{1680}'
    ||| ('\u{2000}' <= c && c <= '\u{200a}')
    ||| c == '\u{2028}'
    ||| c == '\u{2029}'
    ||| c == '\u{202f}'
    ||| c == '\u{205f}'
    ||| c == '\u{3000}'
}

/// The tokens of `s`: its maximal runs of characters that are not white
/// space, from left to right.
///
/// The definition reads `s` one character at a time: white space adds
/// nothing, a character that follows another character of a token extends
/// the last token, and any other character starts a new token.
pub open spec fn split_whitespace(s: Seq<char>) -> Seq<Seq<char>>
    decreases s.len(),
{
    if s.len() == 0 {
        Seq::empty()
    } else {
        let before = split_whitespace(s.drop_last());
        if is_space(s.last()) {
            before
        } else if s.len() >= 2 && !is_space(s[s.len() - 2]) && before.len() > 0 {
            before.drop_last().push(before.last().push(s.last()))
        } else {
            before.push(seq![s.last()])
        }
    }
}

/// The characters of each token of `parts`.
pub open spec fn token_views(parts: Seq<&str>) -> Seq<Seq<char>> {
    parts.map_values(|p: &str| p@)
}

/// `s` without the key `key` in front of it; `s` itself where it does not
/// start with `key`.
pub open spec fn strip_key(s: Seq<char>, key: Seq<char>) -> Seq<char> {
    if key.is_prefix_of(s) {
        s.skip(key.len() as int)
    } else {
        s
    }
}

/// Whether `c` is an opening or closing square bracket.
pub open spec fn is_bracket(c: char) -> bool {
    c == '[' || c == ']'
}

/// `s` without its square brackets.
pub open spec fn without_brackets(s: Seq<char>) -> Seq<char> {
    s.filter(|c: char| !is_bracket(c))
}

/// `s` without its last character; `s` itself where it is empty.
pub open spec fn without_last(s: Seq<char>) -> Seq<char> {
    if s.len() > 0 {
        s.drop_last()
    } else {
        s
    }
}

/// Whether `word` can be a token: it is not empty and holds no white
/// space.
pub open spec fn is_word(word: Seq<char>) -> bool {
    word.len() > 0 && forall|i: int| 0 <= i < word.len() ==> !is_space(#[trigger] word[i])
}

/// Every token of a line is a word, and a line has no more tokens than
/// characters.
pub proof fn lemma_split_whitespace_tokens(s: Seq<char>)
    ensures
        split_whitespace(s).len() <= s.len(),
        forall|k: int|
            0 <= k < split_whitespace(s).len() ==> is_word(#[trigger] split_whitespace(s)[k]),
        s.len() > 0 && !is_space(s.last()) ==> split_whitespace(s).len() > 0,
    decreases s.len(),
{
    if s.len() > 0 {
        lemma_split_whitespace_tokens(s.drop_last());
    }
}

/// The line that spells `words` with one space before each of them.
pub open spec fn spaced_line(words: Seq<Seq<char>>) -> Seq<char>
    decreases words.len(),
{
    if words.len() == 0 {
        Seq::empty()
    } else {
        spaced_line(words.drop_last()) + seq![' '] + words.last()
    }
}

/// A word that follows white space, or stands at the start of the line, is
/// one more token.
pub proof fn lemma_split_whitespace_word(s: Seq<char>, word: Seq<char>)
    requires
        s.len() > 0 ==> is_space(s.last()),
        is_word(word),
    ensures
        split_whitespace(s + word) == split_whitespace(s).push(word),
    decreases word.len(),
{
    let line = s + word;
    assert(line.drop_last() =~= s + word.drop_last());
    assert(line.last() == word.last());
    assert(!is_space(word[word.len() - 1]));
    if word.len() == 1 {
        assert(s + word.drop_last() =~= s);
        assert(seq![word.last()] =~= word);
    } else {
        let shorter = word.drop_last();
        assert forall|i: int| 0 <= i < shorter.len() implies !is_space(#[trigger] shorter[i]) by {
            assert(shorter[i] == word[i]);
        }
        lemma_split_whitespace_word(s, shorter);
        assert(line[line.len() - 2] == word[word.len() - 2]);
        assert(!is_space(word[word.len() - 2]));
        let before = split_whitespace(s).push(shorter);
        assert(before.drop_last() =~= split_whitespace(s));
        assert(before.last().push(word.last()) =~= word);
    }
}

/// White space at the end of a line adds no token.
pub proof fn lemma_split_whitespace_space(s: Seq<char>, c: char)
    requires
        is_space(c),
    ensures
        split_whitespace(s.push(c)) == split_whitespace(s),
{
    assert(s.push(c).drop_last() =~= s);
}

/// Cutting undoes spelling: the tokens of the line that spells words with
/// spaces between them are those words.
pub proof fn lemma_split_whitespace_spaced(words: Seq<Seq<char>>)
    requires
        forall|k: int| 0 <= k < words.len() ==> is_word(#[trigger] words[k]),
    ensures
        split_whitespace(spaced_line(words)) == words,
    decreases words.len(),
{
    if words.len() > 0 {
        let front = words.drop_last();
        assert forall|k: int| 0 <= k < front.len() implies is_word(#[trigger] front[k]) by {
            assert(front[k] == words[k]);
        }
        lemma_split_whitespace_spaced(front);
        lemma_split_whitespace_space(spaced_line(front), ' ');
        assert(spaced_line(front).push(' ') =~= spaced_line(front) + seq![' ']);
        lemma_split_whitespace_word(spaced_line(front) + seq![' '], words.last());
        assert(front.push(words.last()) =~= words);
    }
}

/// Tests a character for being white space.
pub fn char_is_space(c: char) -> (b: bool)
    ensures
        b == is_space(c),
{
    ('\u{9}' <= c && c <= '\u{d}') || c == ' ' || c == '\u{85}' || c == '\u{a0}' || c == '\u{1680}'
        || ('\u{2000}' <= c && c <= '\u{200a}') || c == '\u{2028}' || c == '\u{2029}' || c
        == '\u{202f}' || c == '\u{205f}' || c == '\u{3000}'
}

/// The characters of `s`, in order.
pub fn str_chars(s: &str) -> (v: Vec<char>)
    ensures
        v@ == s@,
{
    let mut v: Vec<char> = Vec::new();
    for c in it: s.chars()
        invariant
            it.seq() == s@,
            v@ == it.seq().take(it.index() as int),
    {
        v.push(c);
    }
    v
}

/// Cuts a line into its tokens. Every token is a word.
pub fn split_line<'a>(line: &'a str) -> (parts: Vec<&'a str>)
    ensures
        token_views(parts@) == split_whitespace(line@),
        forall|k: int| 0 <= k < parts.len() ==> is_word(#[trigger] parts[k]@),
{
    let chars = str_chars(line);
    let n = chars.len();
    let ghost s = line@;
    let mut parts: Vec<&'a str> = Vec::new();
    let mut inside = false;
    let mut start: usize = 0;
    let mut i: usize = 0;
    proof {
        assert(s.take(0) =~= Seq::<char>::empty());
        assert(token_views(parts@) =~= Seq::<Seq<char>>::empty());
    }
    while i < n
        invariant
            i <= n,
            n == chars.len(),
            chars@ == line@,
            s == line@,
            inside ==> start < i && !is_space(s[i - 1]),
            !inside && i > 0 ==> is_space(s[i - 1]),
            split_whitespace(s.take(i as int)) == (if inside {
                token_views(parts@).push(s.subrange(start as int, i as int))
            } else {
                token_views(parts@)
            }),
        decreases n - i,
    {
        let c = chars[i];
        let ghost before = split_whitespace(s.take(i as int));
        proof {
            assert(s.take(i + 1).drop_last() =~= s.take(i as int));
            assert(s.take(i + 1).last() == c);
            if i > 0 {
                assert(s.take(i + 1)[i - 1] == s[i - 1]);
            }
        }
        if char_is_space(c) {
            if inside {
                let word = line.substring_char(start, i);
                proof {
                    assert(token_views(parts@.push(word)) =~= token_views(parts@).push(word@));
                }
                parts.push(word);
                inside = false;
            }
        } else {
            if !inside {
                start = i;
                inside = true;
                proof {
                    assert(s.subrange(i as int, i + 1) =~= seq![c]);
                }
            } else {
                proof {
                    assert(before.last().push(c) =~= s.subrange(start as int, i + 1));
                    assert(before.drop_last() =~= token_views(parts@));
                }
            }
        }
        i = i + 1;
    }
    proof {
        assert(s.take(n as int) =~= s);
    }
    if inside {
        let word = line.substring_char(start, n);
        proof {
            assert(token_views(parts@.push(word)) =~= token_views(parts@).push(word@));
        }
        parts.push(word);
    }
    proof {
        lemma_split_whitespace_tokens(s);
        assert forall|k: int| 0 <= k < parts.len() implies is_word(#[trigger] parts[k]@) by {
            assert(token_views(parts@)[k] == parts[k]@);
        }
    }
    parts
}

/// Whether the characters `chars` start with those of `key`.
pub fn starts_with(chars: &Vec<char>, key: &str) -> (b: bool)
    ensures
        b == key@.is_prefix_of(chars@),
{
    let key_chars = str_chars(key);
    let k = key_chars.len();
    if k > chars.len() {
        return false;
    }
    let mut i: usize = 0;
    while i < k
        invariant
            i <= k,
            k == key_chars.len(),
            k <= chars.len(),
            key_chars@ == key@,
            forall|j: int| 0 <= j < i ==> chars@[j] == key@[j],
        decreases k - i,
    {
        if chars[i] != key_chars[i] {
            assert(chars@.subrange(0, k as int)[i as int] != key@[i as int]);
            return false;
        }
        i = i + 1;
    }
    assert(key@ =~= chars@.subrange(0, k as int));
    true
}

/// The number of characters that `strip_key` removes from `chars`: the
/// length of `key` where `chars` starts with it, and zero where not.
pub fn key_length(chars: &Vec<char>, key: &str) -> (r: usize)
    ensures
        r <= chars.len(),
        chars@.skip(r as int) == strip_key(chars@, key@),
        r == (if key@.is_prefix_of(chars@) {
            key@.len()
        } else {
            0
        }),
{
    if starts_with(chars, key) {
        key.unicode_len()
    } else {
        assert(chars@.skip(0) =~= chars@);
        0
    }
}

/// Whether two runs of characters are the same text.
pub fn same_text(chars: &Vec<char>, text: &str) -> (b: bool)
    ensures
        b == (chars@ == text@),
{
    let text_chars = str_chars(text);
    if text_chars.len() != chars.len() {
        return false;
    }
    let b = starts_with(chars, text);
    proof {
        if b {
            assert(chars@.subrange(0, chars@.len() as int) =~= chars@);
        }
    }
    b
}

/// The position of the last `sep` among `chars`.
pub fn last_position(chars: &Vec<char>, sep: char) -> (r: Option<usize>)
    ensures
        match r {
            Some(i) => chars@.index_of_last(sep) == Some(i as int) && i < chars.len(),
            None => chars@.index_of_last(sep).is_none(),
        },
{
    let mut i: usize = chars.len();
    while i > 0
        invariant
            i <= chars.len(),
            forall|j: int| i <= j < chars.len() ==> chars@[j] != sep,
        decreases i,
    {
        i = i - 1;
        if chars[i] == sep {
            proof {
                chars@.index_of_last_ensures(sep);
                assert(chars@[i as int] == sep);
            }
            return Some(i);
        }
    }
    proof {
        chars@.index_of_last_ensures(sep);
    }
    None
}

/// The characters of `chars` that are not square brackets.
pub fn drop_brackets(chars: &Vec<char>) -> (out: Vec<char>)
    ensures
        out@ == without_brackets(chars@),
{
    let ghost keep = |c: char| !is_bracket(c);
    let mut out: Vec<char> = Vec::new();
    let mut i: usize = 0;
    proof {
        assert(chars@.take(0) =~= Seq::<char>::empty());
    }
    while i < chars.len()
        invariant
            i <= chars.len(),
            keep == (|c: char| !is_bracket(c)),
            out@ == chars@.take(i as int).filter(keep),
        decreases chars.len() - i,
    {
        let c = chars[i];
        proof {
            assert(chars@.take(i + 1).drop_last() =~= chars@.take(i as int));
            assert(chars@.take(i + 1).last() == c);
            reveal_with_fuel(Seq::filter, 2);
        }
        if c != '[' && c != ']' {
            out.push(c);
        }
        i = i + 1;
    }
    proof {
        assert(chars@.take(chars@.len() as int) =~= chars@);
    }
    out
}

} // verus!
