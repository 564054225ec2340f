//! Characters and strings: the classes of characters that the tokenizer and
//! the selector parser tell apart, and the conversions between strings and
//! sequences of characters.
use vstd::prelude::*;
use vstd::string::StringExecFns;

verus! {

/// Whether `c` is white space: the code points that carry the Unicode
/// property `White_Space`.
pub open spec fn is_whitespace(c: char) -> bool {
    let n = c as u32;
    ||| 0x09 <= n <= 0x0D
    ||| n == 0x20
    ||| n == 0x85
    ||| n == 0xA0
    ||| n == 0x1680
    ||| 0x2000 <= n <= 0x200A
    ||| n == 0x2028
    ||| n == 0x2029
    ||| n == 0x202F
    ||| n == 0x205F
    ||| n == 0x3000
}

/// Whether `c` is ASCII white space: tab, line feed, form feed, carriage
/// return or space.
pub open spec fn is_ascii_whitespace(c: char) -> bool {
    c == '\t' || c == '\n' || c == '\x0C' || c == '\r' || c == ' '
}

/// Whether `c` is one of the ASCII digits.
pub open spec fn is_ascii_digit(c: char) -> bool {
    '0' <= c <= '9'
}

/// Whether `c` is an ASCII letter.
pub open spec fn is_ascii_alphabetic(c: char) -> bool {
    ('a' <= c <= 'z') || ('A' <= c <= 'Z')
}

/// Whether `c` is an ASCII letter or digit.
pub open spec fn is_ascii_alphanumeric(c: char) -> bool {
    is_ascii_alphabetic(c) || is_ascii_digit(c)
}

/// `c` with an ASCII upper-case letter replaced by its lower-case form.
pub open spec fn to_ascii_lowercase(c: char) -> char {
    if 'A' <= c <= 'Z' {
        ((c as u8) + 32) as char
    } else {
        c
    }
}

/// `s` with every ASCII upper-case letter replaced by its lower-case form.
pub open spec fn lowercase(s: Seq<char>) -> Seq<char> {
    Seq::new(s.len(), |i: int| to_ascii_lowercase(s[i]))
}

/// Whether `c` is white space.
pub fn char_is_whitespace(c: char) -> (r: bool)
    ensures
        r == is_whitespace(c),
{
    let n: u32 = c as u32;
    (0x09 <= n && n <= 0x0D) || n == 0x20 || n == 0x85 || n == 0xA0 || n == 0x1680 || (0x2000 <= n
        && n <= 0x200A) || n == 0x2028 || n == 0x2029 || n == 0x202F || n == 0x205F || n == 0x3000
}

/// Whether `c` is ASCII white space.
pub fn char_is_ascii_whitespace(c: char) -> (r: bool)
    ensures
        r == is_ascii_whitespace(c),
{
    c == '\t' || c == '\n' || c == '\x0C' || c == '\r' || c == ' '
}

/// Whether `c` is an ASCII digit.
pub fn char_is_ascii_digit(c: char) -> (r: bool)
    ensures
        r == is_ascii_digit(c),
{
    '0' <= c && c <= '9'
}

/// Whether `c` is an ASCII letter or digit.
pub fn char_is_ascii_alphanumeric(c: char) -> (r: bool)
    ensures
        r == is_ascii_alphanumeric(c),
{
    ('a' <= c && c <= 'z') || ('A' <= c && c <= 'Z') || ('0' <= c && c <= '9')
}

/// `c` in ASCII lower case.
pub fn char_to_ascii_lowercase(c: char) -> (r: char)
    ensures
        r == to_ascii_lowercase(c),
{
    if 'A' <= c && c <= 'Z' {
        let b: u8 = c as u8;
        (b + 32) as char
    } else {
        c
    }
}

/// The characters of `s`, in order.
pub fn chars_of(s: &str) -> (v: Vec<char>)
    ensures
        v@ == s@,
{
    let mut v: Vec<char> = Vec::new();
    for c in it: s.chars()
        invariant
            v@ == it.seq().take(it.index() as int),
    {
        v.push(c);
    }
    v
}

/// What the standard library says of `String::push`, taken on trust and not
/// proved here: the character is appended at the end of the string, and
/// what was there before stays in place.
pub assume_specification[ String::push ](s: &mut String, ch: char)
    ensures
        final(s)@ == old(s)@.push(ch),
;

/// The string made of the characters of `v`, in order.
pub fn string_of(v: &Vec<char>) -> (s: String)
    ensures
        s@ == v@,
{
    let mut s = String::new();
    let mut i: usize = 0;
    while i < v.len()
        invariant
            i <= v.len(),
            s@ == v@.take(i as int),
        decreases v.len() - i,
    {
        s.push(v[i]);
        i += 1;
    }
    s
}

/// Whether the characters of `v` are those of `s`.
pub fn chars_eq(v: &Vec<char>, s: &str) -> (r: bool)
    ensures
        r == (v@ == s@),
{
    let mut same = true;
    let mut i: usize = 0;
    for c in it: s.chars()
        invariant
            it.seq() == s@,
            same ==> i == it.index() && i <= v.len() && v@.take(i as int) == s@.take(i as int),
            !same ==> v@ != s@,
    {
        if same {
            if i < v.len() && v[i] == c {
                i += 1;
                assert(v@.take(i as int) =~= s@.take(i as int)) by {
                    assert(v@.take(i as int) == v@.take(i - 1).push(v@[i - 1]));
                    assert(s@.take(i as int) == s@.take(i - 1).push(s@[i - 1]));
                }
            } else {
                same = false;
            }
        }
    }
    proof {
        if same {
            assert(s@.take(s@.len() as int) == s@);
            if i == v.len() {
                assert(v@.take(v@.len() as int) == v@);
            }
        }
    }
    same && i == v.len()
}

/// Whether two strings hold the same characters.
pub fn str_eq(a: &str, b: &str) -> (r: bool)
    ensures
        r == (a@ == b@),
{
    let v = chars_of(a);
    chars_eq(&v, b)
}

/// The characters of `s` in ASCII lower case.
pub fn lowercase_chars(s: &str) -> (r: Vec<char>)
    ensures
        r@ == lowercase(s@),
{
    let mut r: Vec<char> = Vec::new();
    for c in it: s.chars()
        invariant
            it.seq() == s@,
            r@ == lowercase(s@).take(it.index() as int),
    {
        r.push(char_to_ascii_lowercase(c));
    }
    r
}

/// `s` in ASCII lower case.
pub fn to_lowercase(s: &str) -> (r: String)
    ensures
        r@ == lowercase(s@),
{
    let mut r = String::new();
    for c in it: s.chars()
        invariant
            it.seq() == s@,
            r@ == lowercase(s@).take(it.index() as int),
    {
        r.push(char_to_ascii_lowercase(c));
    }
    r
}

/// Whether every character of `s` is white space. This holds of the empty
/// string.
pub open spec fn all_whitespace(s: Seq<char>) -> bool {
    forall|i: int| 0 <= i < s.len() ==> is_whitespace(#[trigger] s[i])
}

/// Whether every character of `s` is white space.
pub fn is_all_whitespace(s: &str) -> (r: bool)
    ensures
        r == all_whitespace(s@),
{
    let mut r = true;
    for c in it: s.chars()
        invariant
            it.seq() == s@,
            r == all_whitespace(s@.take(it.index() as int)),
    {
        if !char_is_whitespace(c) {
            r = false;
        }
        proof {
            let i = it.index() as int;
            assert(s@.take(i + 1).take(i) == s@.take(i));
            assert(s@.take(i + 1)[i] == c);
            if all_whitespace(s@.take(i + 1)) {
                assert forall|j: int| 0 <= j < i implies is_whitespace(#[trigger] s@.take(i)[j]) by {
                    assert(s@.take(i)[j] == s@.take(i + 1)[j]);
                }
            }
        }
    }
    proof {
        assert(s@.take(s@.len() as int) == s@);
    }
    r
}

/// The number of characters before the first ASCII white space of `s`, or
/// the length of `s` where it holds none.
pub open spec fn word_len(s: Seq<char>) -> int
    decreases s.len(),
{
    if s.len() == 0 || is_ascii_whitespace(s[0]) {
        0
    } else {
        1 + word_len(s.drop_first())
    }
}

/// The words of `s`: the longest runs of characters that are not ASCII white
/// space, in order.
pub open spec fn split_ascii_whitespace(s: Seq<char>) -> Seq<Seq<char>>
    decreases s.len(),
{
    if s.len() == 0 {
        Seq::empty()
    } else if is_ascii_whitespace(s[0]) {
        split_ascii_whitespace(s.drop_first())
    } else {
        proof {
            lemma_word_len(s);
        }
        seq![s.take(word_len(s))] + split_ascii_whitespace(s.skip(word_len(s)))
    }
}

/// A word is as long as the run of characters it is made of: it ends at the
/// first white space or at the end.
pub proof fn lemma_word_len(s: Seq<char>)
    ensures
        0 <= word_len(s) <= s.len(),
        s.len() > 0 && !is_ascii_whitespace(s[0]) ==> word_len(s) > 0,
        forall|i: int| 0 <= i < word_len(s) ==> !is_ascii_whitespace(#[trigger] s[i]),
        word_len(s) < s.len() ==> is_ascii_whitespace(s[word_len(s)]),
    decreases s.len(),
{
    if s.len() == 0 || is_ascii_whitespace(s[0]) {
    } else {
        lemma_word_len(s.drop_first());
        assert forall|i: int| 0 <= i < word_len(s) implies !is_ascii_whitespace(
            #[trigger] s[i],
        ) by {
            if i > 0 {
                assert(s[i] == s.drop_first()[i - 1]);
            }
        }
    }
}

/// Whether `word` can stand as one word: it is not empty and holds no ASCII
/// white space.
pub open spec fn is_word(word: Seq<char>) -> bool {
    &&& word.len() > 0
    &&& forall|i: int| 0 <= i < word.len() ==> !is_ascii_whitespace(#[trigger] word[i])
}

/// The words joined by single spaces.
pub open spec fn join_words(words: Seq<Seq<char>>) -> Seq<char>
    decreases words.len(),
{
    if words.len() == 0 {
        Seq::empty()
    } else if words.len() == 1 {
        words[0]
    } else {
        words[0] + seq![' '] + join_words(words.drop_first())
    }
}

/// Every word that splitting yields is a word.
pub proof fn lemma_split_words(s: Seq<char>)
    ensures
        forall|i: int|
            0 <= i < split_ascii_whitespace(s).len() ==> is_word(
                #[trigger] split_ascii_whitespace(s)[i],
            ),
    decreases s.len(),
{
    if s.len() == 0 {
        assert(split_ascii_whitespace(s).len() == 0);
    } else if is_ascii_whitespace(s[0]) {
        lemma_split_words(s.drop_first());
        assert(split_ascii_whitespace(s) == split_ascii_whitespace(s.drop_first()));
    } else {
        lemma_word_len(s);
        lemma_split_words(s.skip(word_len(s)));
        let first = s.take(word_len(s));
        let rest = split_ascii_whitespace(s.skip(word_len(s)));
        assert forall|i: int| 0 <= i < first.len() implies !is_ascii_whitespace(
            #[trigger] first[i],
        ) by {
            assert(first[i] == s[i]);
        }
        assert(is_word(first));
        assert(split_ascii_whitespace(s) == seq![first] + rest);
        assert forall|i: int| 0 <= i < split_ascii_whitespace(s).len() implies is_word(
            #[trigger] split_ascii_whitespace(s)[i],
        ) by {
            if i > 0 {
                assert(split_ascii_whitespace(s)[i] == rest[i - 1]);
            } else {
                assert(split_ascii_whitespace(s)[0] == first);
            }
        }
    }
}

/// A string that starts with a word and goes on, if at all, with white
/// space splits into that word and the words of what follows.
pub proof fn lemma_split_word_first(word: Seq<char>, rest: Seq<char>)
    requires
        is_word(word),
        rest.len() > 0 ==> is_ascii_whitespace(rest[0]),
    ensures
        split_ascii_whitespace(word + rest) == seq![word] + split_ascii_whitespace(rest),
{
    let s = word + rest;
    lemma_word_len_prefix(word, rest);
    assert(s.take(word.len() as int) == word);
    assert(s.skip(word.len() as int) == rest);
    lemma_word_len(s);
}

/// The first word of a string that starts with a word and goes on with
/// white space is that word.
pub proof fn lemma_word_len_prefix(word: Seq<char>, rest: Seq<char>)
    requires
        forall|i: int| 0 <= i < word.len() ==> !is_ascii_whitespace(#[trigger] word[i]),
        rest.len() > 0 ==> is_ascii_whitespace(rest[0]),
    ensures
        word_len(word + rest) == word.len(),
    decreases word.len(),
{
    let s = word + rest;
    if word.len() == 0 {
        assert(s == rest);
    } else {
        assert(s[0] == word[0]);
        assert(s.drop_first() == word.drop_first() + rest);
        assert forall|i: int| 0 <= i < word.drop_first().len() implies !is_ascii_whitespace(
            #[trigger] word.drop_first()[i],
        ) by {
            assert(word.drop_first()[i] == word[i + 1]);
        }
        lemma_word_len_prefix(word.drop_first(), rest);
    }
}

/// Splitting what joining made of a list of words gives the list back.
pub proof fn lemma_split_join(words: Seq<Seq<char>>)
    requires
        forall|i: int| 0 <= i < words.len() ==> is_word(#[trigger] words[i]),
    ensures
        split_ascii_whitespace(join_words(words)) == words,
    decreases words.len(),
{
    if words.len() == 0 {
    } else if words.len() == 1 {
        lemma_split_word_first(words[0], Seq::empty());
        assert(words[0] + Seq::<char>::empty() == words[0]);
        assert(seq![words[0]] + Seq::<Seq<char>>::empty() == words);
    } else {
        let rest = words.drop_first();
        assert forall|i: int| 0 <= i < rest.len() implies is_word(#[trigger] rest[i]) by {
            assert(rest[i] == words[i + 1]);
        }
        lemma_split_join(rest);
        let tail = seq![' '] + join_words(rest);
        assert(words[0] + seq![' '] + join_words(rest) == words[0] + tail);
        lemma_split_word_first(words[0], tail);
        assert(tail.drop_first() == join_words(rest));
        assert(is_ascii_whitespace(tail[0]));
        assert(split_ascii_whitespace(tail) == split_ascii_whitespace(join_words(rest)));
        assert(seq![words[0]] + rest == words);
    }
}

/// The words of `s`, each as a string of its own.
pub fn split_words(s: &str) -> (words: Vec<String>)
    ensures
        strings_view(words@) == split_ascii_whitespace(s@),
{
    let chars = chars_of(s);
    let mut words: Vec<String> = Vec::new();
    let mut i: usize = 0;
    assert(chars@.skip(0) == chars@);
    assert(strings_view(words@) =~= Seq::empty());
    while i < chars.len()
        invariant
            i <= chars.len(),
            chars@ == s@,
            strings_view(words@) + split_ascii_whitespace(chars@.skip(i as int))
                == split_ascii_whitespace(s@),
        decreases chars.len() - i,
    {
        let ghost rest = chars@.skip(i as int);
        assert(rest[0] == chars@[i as int]);
        if char_is_ascii_whitespace(chars[i]) {
            assert(rest.drop_first() == chars@.skip(i + 1));
            i += 1;
        } else {
            let mut word: Vec<char> = Vec::new();
            let start = i;
            proof {
                lemma_word_len(rest);
            }
            while i < chars.len() && !char_is_ascii_whitespace(chars[i])
                invariant
                    start <= i <= chars.len(),
                    rest == chars@.skip(start as int),
                    word@ == chars@.subrange(start as int, i as int),
                    word_len(rest) == (i - start) + word_len(chars@.skip(i as int)),
                decreases chars.len() - i,
            {
                let ghost tail = chars@.skip(i as int);
                assert(tail[0] == chars@[i as int]);
                assert(tail.drop_first() == chars@.skip(i + 1));
                word.push(chars[i]);
                i += 1;
                assert(word@ == chars@.subrange(start as int, i as int));
            }
            proof {
                let tail = chars@.skip(i as int);
                if i < chars.len() {
                    assert(tail[0] == chars@[i as int]);
                }
                assert(word_len(tail) == 0);
                assert(word@ == rest.take(word_len(rest)));
                assert(rest.skip(word_len(rest)) == tail);
            }
            let ghost before = strings_view(words@);
            let text = string_of(&word);
            words.push(text);
            assert(strings_view(words@) =~= before.push(word@));
            assert(before.push(word@) + split_ascii_whitespace(chars@.skip(i as int)) == before
                + (seq![word@] + split_ascii_whitespace(chars@.skip(i as int))));
        }
    }
    assert(strings_view(words@) + Seq::<Seq<char>>::empty() == strings_view(words@));
    words
}

/// The characters of each string of a list, in order.
pub open spec fn strings_view(strings: Seq<String>) -> Seq<Seq<char>> {
    Seq::new(strings.len(), |i: int| strings[i]@)
}

/// The strings of `words` joined by single spaces.
pub fn join(words: &Vec<String>) -> (joined: String)
    ensures
        joined@ == join_words(strings_view(words@)),
{
    let mut joined = String::new();
    let mut i: usize = words.len();
    let ghost all = strings_view(words@);
    assert(all.skip(all.len() as int) == Seq::<Seq<char>>::empty());
    while i > 0
        invariant
            i <= words.len(),
            all == strings_view(words@),
            joined@ == join_words(all.skip(i as int)),
        decreases i,
    {
        i -= 1;
        let ghost tail = all.skip(i + 1);
        let ghost here = all.skip(i as int);
        assert(here.drop_first() == tail);
        assert(here[0] == words@[i as int]@);
        let mut text = words[i].clone();
        if i + 1 < words.len() {
            text.push(' ');
            text.append(joined.as_str());
            assert(text@ == here[0] + seq![' '] + join_words(tail));
        } else {
            assert(here.len() == 1);
        }
        joined = text;
    }
    assert(all.skip(0) == all);
    joined
}

} // verus!
