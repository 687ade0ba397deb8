//! Text as sequences of characters: the few string operations that the rest of the crate needs,
//! each with its meaning on `Seq<char>`.

use vstd::prelude::*;
use vstd::slice::slice_subrange;

verus! {

/// `String::push` appends one character at the end of the string.
pub assume_specification[ String::push ](s: &mut String, character: char)
    ensures
        final(s)@ == old(s)@.push(character),
;

/// The characters of `text`.
pub fn to_chars(text: &str) -> (chars: Vec<char>)
    ensures
        chars@ == text@,
{
    let mut chars: Vec<char> = Vec::new();
    for c in it: text.chars()
        invariant
            chars@ == it.seq().take(it.index()),
            it.seq() == text@,
    {
        chars.push(c);
    }
    chars
}

/// The text made of `chars`.
pub fn from_chars(chars: &[char]) -> (text: String)
    ensures
        text@ == chars@,
{
    let mut text = String::new();
    for i in 0..chars.len()
        invariant
            text@ == chars@.take(i as int),
    {
        text.push(chars[i]);
    }
    assert(chars@.take(chars.len() as int) == chars@);
    text
}

/// Whether a text has no characters.
pub fn no_text(text: &str) -> (empty: bool)
    ensures
        empty == (text@.len() == 0),
{
    to_chars(text).len() == 0
}

/// Whether two texts hold the same characters.
pub fn same_text(left: &str, right: &str) -> (same: bool)
    ensures
        same == (left@ == right@),
{
    let a = left.as_bytes();
    let b = right.as_bytes();
    if a.len() != b.len() {
        return false;
    }
    for i in 0..a.len()
        invariant
            a@.len() == b@.len(),
            a@ == vstd::utf8::encode_utf8(left@),
            b@ == vstd::utf8::encode_utf8(right@),
            forall|j: int| 0 <= j < i ==> a@[j] == b@[j],
    {
        if a[i] != b[i] {
            return false;
        }
    }
    proof {
        assert(a@ == b@);
        vstd::utf8::encode_utf8_decode_utf8(left@);
        vstd::utf8::encode_utf8_decode_utf8(right@);
    }
    true
}

/// The number of bytes of a text in UTF-8.
pub open spec fn byte_len(text: Seq<char>) -> nat {
    vstd::utf8::encode_utf8(text).len()
}

/// The number of bytes that `text` takes.
pub fn text_bytes(text: &str) -> (count: usize)
    ensures
        count == byte_len(text@),
{
    text.as_bytes().len()
}

/// The order of texts: character by character by code point, a proper prefix first.
pub open spec fn text_lt(a: Seq<char>, b: Seq<char>) -> bool
    decreases a.len(),
{
    if b.len() == 0 {
        false
    } else if a.len() == 0 {
        true
    } else if a[0] == b[0] {
        text_lt(a.drop_first(), b.drop_first())
    } else {
        a[0] < b[0]
    }
}

/// No text comes before itself.
pub proof fn lemma_text_lt_irreflexive(a: Seq<char>)
    ensures
        !text_lt(a, a),
    decreases a.len(),
{
    if a.len() > 0 {
        lemma_text_lt_irreflexive(a.drop_first());
    }
}

/// The order of texts is transitive.
pub proof fn lemma_text_lt_transitive(a: Seq<char>, b: Seq<char>, c: Seq<char>)
    requires
        text_lt(a, b),
        text_lt(b, c),
    ensures
        text_lt(a, c),
    decreases a.len(),
{
    if a.len() > 0 {
        if a[0] == b[0] && b[0] == c[0] {
            lemma_text_lt_transitive(a.drop_first(), b.drop_first(), c.drop_first());
        }
    }
}

/// Of two different texts one comes before the other.
pub proof fn lemma_text_lt_total(a: Seq<char>, b: Seq<char>)
    ensures
        text_lt(a, b) || text_lt(b, a) || a == b,
    decreases a.len(),
{
    if a.len() > 0 && b.len() > 0 {
        if a[0] == b[0] {
            lemma_text_lt_total(a.drop_first(), b.drop_first());
            if a.drop_first() == b.drop_first() {
                assert(a == seq![a[0]] + a.drop_first());
                assert(b == seq![b[0]] + b.drop_first());
            }
        }
    } else {
        if a.len() == b.len() {
            assert(a == b);
        }
    }
}

/// Whether `left` comes before `right`.
pub fn text_before(left: &str, right: &str) -> (before: bool)
    ensures
        before == text_lt(left@, right@),
{
    let a = to_chars(left);
    let b = to_chars(right);
    let mut i: usize = 0;
    proof {
        assert(a@.skip(0) == a@);
        assert(b@.skip(0) == b@);
    }
    while i < a.len() && i < b.len()
        invariant
            i <= a.len(),
            i <= b.len(),
            a@ == left@,
            b@ == right@,
            text_lt(left@, right@) == text_lt(a@.skip(i as int), b@.skip(i as int)),
        decreases a.len() - i,
    {
        proof {
            assert(a@.skip(i as int).drop_first() == a@.skip(i + 1));
            assert(b@.skip(i as int).drop_first() == b@.skip(i + 1));
        }
        if a[i] != b[i] {
            return a[i] < b[i];
        }
        i += 1;
    }
    i < b.len()
}

/// `left` followed by `right`.
pub fn cat2(left: &str, right: &str) -> (text: String)
    ensures
        text@ == left@ + right@,
{
    let mut text = left.to_owned();
    text.append(right);
    text
}

/// Three texts one after the other.
pub fn cat3(first: &str, second: &str, third: &str) -> (text: String)
    ensures
        text@ == first@ + second@ + third@,
{
    let mut text = first.to_owned();
    text.append(second);
    text.append(third);
    text
}

/// Four texts one after the other.
pub fn cat4(first: &str, second: &str, third: &str, fourth: &str) -> (text: String)
    ensures
        text@ == first@ + second@ + third@ + fourth@,
{
    let mut text = cat3(first, second, third);
    text.append(fourth);
    text
}

/// Five texts one after the other.
pub fn cat5(first: &str, second: &str, third: &str, fourth: &str, fifth: &str) -> (text: String)
    ensures
        text@ == first@ + second@ + third@ + fourth@ + fifth@,
{
    let mut text = cat4(first, second, third, fourth);
    text.append(fifth);
    text
}

/// The views of a list of texts.
pub open spec fn views(texts: Seq<String>) -> Seq<Seq<char>> {
    texts.map_values(|text: String| text@)
}

/// Whether a list holds a text.
pub fn holds_text(list: &Vec<String>, text: &str) -> (held: bool)
    ensures
        held == views(list@).contains(text@),
{
    for i in 0..list.len()
        invariant
            forall|j: int| 0 <= j < i ==> #[trigger] views(list@)[j] != text@,
    {
        if same_text(list[i].as_str(), text) {
            assert(views(list@)[i as int] == text@);
            return true;
        }
    }
    false
}

/// The texts of `parts` with `separator` between each two of them.
pub open spec fn join_text(parts: Seq<Seq<char>>, separator: Seq<char>) -> Seq<char>
    decreases parts.len(),
{
    if parts.len() == 0 {
        Seq::empty()
    } else if parts.len() == 1 {
        parts[0]
    } else {
        join_text(parts.drop_last(), separator) + separator + parts.last()
    }
}

/// Joins texts with a separator.
pub fn join(parts: &Vec<String>, separator: &str) -> (text: String)
    ensures
        text@ == join_text(views(parts@), separator@),
{
    let mut text = String::new();
    for i in 0..parts.len()
        invariant
            text@ == join_text(views(parts@).take(i as int), separator@),
    {
        if i > 0 {
            text.append(separator);
        }
        text.append(parts[i].as_str());
        proof {
            assert(views(parts@).take(i + 1).drop_last() == views(parts@).take(i as int));
            if i == 0 {
                assert(text@ == parts@[0]@);
            }
        }
    }
    proof {
        assert(views(parts@).take(parts.len() as int) == views(parts@));
    }
    text
}

/// The decimal digit for a number below ten.
pub open spec fn digit_char(digit: int) -> char {
    if digit == 0 {
        '0'
    } else if digit == 1 {
        '1'
    } else if digit == 2 {
        '2'
    } else if digit == 3 {
        '3'
    } else if digit == 4 {
        '4'
    } else if digit == 5 {
        '5'
    } else if digit == 6 {
        '6'
    } else if digit == 7 {
        '7'
    } else if digit == 8 {
        '8'
    } else {
        '9'
    }
}

/// A number in decimal, without leading zeros.
pub open spec fn decimal_text(number: nat) -> Seq<char>
    decreases number,
{
    if number < 10 {
        seq![digit_char(number as int)]
    } else {
        decimal_text(number / 10).push(digit_char((number % 10) as int))
    }
}

fn digit(value: u128) -> (character: char)
    requires
        value < 10,
    ensures
        character == digit_char(value as int),
{
    if value == 0 {
        '0'
    } else if value == 1 {
        '1'
    } else if value == 2 {
        '2'
    } else if value == 3 {
        '3'
    } else if value == 4 {
        '4'
    } else if value == 5 {
        '5'
    } else if value == 6 {
        '6'
    } else if value == 7 {
        '7'
    } else if value == 8 {
        '8'
    } else {
        '9'
    }
}

/// Writes a number in decimal.
pub fn decimal(number: u128) -> (text: String)
    ensures
        text@ == decimal_text(number as nat),
    decreases number,
{
    if number < 10 {
        let mut text = String::new();
        text.push(digit(number));
        assert(text@ == seq![digit_char(number as int)]);
        text
    } else {
        let mut text = decimal(number / 10);
        text.push(digit(number % 10));
        text
    }
}

/// The characters that Unicode counts as white space.
pub open spec fn is_white_space(c: char) -> bool {
    ||| '\t' <= c <= '\r'
    ||| c == ' '
    ||| c == '\u{85}'
    ||| c == '\u{A0}'
    ||| c == '\u{1680}'
    ||| '\u{2000}' <= c <= '\u{200A}'
    ||| c == '\u{2028}'
    ||| c == '\u{2029}'
    ||| c == '\u{202F}'
    ||| c == '\u{205F}'
    ||| c == '\u{3000}'
}

/// The sets of characters that the crate strips from the ends of texts.
#[derive(Clone, Copy, PartialEq, Eq, Debug)]
pub enum CharSet {
    /// Unicode white space.
    White,
    /// `/`.
    Slash,
    /// `'` and `"`.
    Quote,
    /// Space, tab, carriage return and line feed.
    Blank,
}

/// Whether a character belongs to a set.
pub open spec fn in_set(set: CharSet, c: char) -> bool {
    match set {
        CharSet::White => is_white_space(c),
        CharSet::Slash => c == '/',
        CharSet::Quote => c == '\'' || c == '"',
        CharSet::Blank => c == ' ' || c == '\t' || c == '\r' || c == '\n',
    }
}

/// Whether `c` belongs to `set`.
pub fn belongs(set: CharSet, c: char) -> (member: bool)
    ensures
        member == in_set(set, c),
{
    match set {
        CharSet::White => {
            ('\t' <= c && c <= '\r') || c == ' ' || c == '\u{85}' || c == '\u{A0}' || c == '\u{1680}'
                || ('\u{2000}' <= c && c <= '\u{200A}') || c == '\u{2028}' || c == '\u{2029}'
                || c == '\u{202F}' || c == '\u{205F}' || c == '\u{3000}'
        },
        CharSet::Slash => c == '/',
        CharSet::Quote => c == '\'' || c == '"',
        CharSet::Blank => c == ' ' || c == '\t' || c == '\r' || c == '\n',
    }
}

/// `s` without the characters of `set` at its front.
pub open spec fn trim_front(set: CharSet, s: Seq<char>) -> Seq<char>
    decreases s.len(),
{
    if s.len() > 0 && in_set(set, s[0]) {
        trim_front(set, s.drop_first())
    } else {
        s
    }
}

/// `s` without the characters of `set` at its back.
pub open spec fn trim_back(set: CharSet, s: Seq<char>) -> Seq<char>
    decreases s.len(),
{
    if s.len() > 0 && in_set(set, s.last()) {
        trim_back(set, s.drop_last())
    } else {
        s
    }
}

/// `s` without the characters of `set` at either end.
pub open spec fn trim_both(set: CharSet, s: Seq<char>) -> Seq<char> {
    trim_back(set, trim_front(set, s))
}

/// Strips the front of `chars`.
pub fn trim_front_of(set: CharSet, chars: &[char]) -> (rest: &[char])
    ensures
        rest@ == trim_front(set, chars@),
{
    let mut i: usize = 0;
    assert(chars@.skip(0) == chars@);
    while i < chars.len() && belongs(set, chars[i])
        invariant
            i <= chars.len(),
            trim_front(set, chars@) == trim_front(set, chars@.skip(i as int)),
        decreases chars.len() - i,
    {
        assert(chars@.skip(i as int).drop_first() == chars@.skip(i + 1));
        i += 1;
    }
    assert(chars@.subrange(i as int, chars.len() as int) == chars@.skip(i as int));
    slice_subrange(chars, i, chars.len())
}

/// Strips the back of `chars`.
pub fn trim_back_of(set: CharSet, chars: &[char]) -> (rest: &[char])
    ensures
        rest@ == trim_back(set, chars@),
{
    let mut end: usize = chars.len();
    assert(chars@.take(end as int) == chars@);
    while end > 0 && belongs(set, chars[end - 1])
        invariant
            end <= chars.len(),
            trim_back(set, chars@) == trim_back(set, chars@.take(end as int)),
        decreases end,
    {
        assert(chars@.take(end as int).drop_last() == chars@.take(end - 1));
        end -= 1;
    }
    assert(chars@.subrange(0, end as int) == chars@.take(end as int));
    slice_subrange(chars, 0, end)
}

/// Strips both ends of `chars`.
pub fn trim_both_of(set: CharSet, chars: &[char]) -> (rest: &[char])
    ensures
        rest@ == trim_both(set, chars@),
{
    trim_back_of(set, trim_front_of(set, chars))
}

/// The length of the longest front of `s` without white space.
pub open spec fn word_len(s: Seq<char>) -> nat
    decreases s.len(),
{
    if s.len() == 0 || is_white_space(s[0]) {
        0
    } else {
        1 + word_len(s.drop_first())
    }
}

/// A word at the front of a text is no longer than the text.
pub proof fn lemma_word_len(s: Seq<char>)
    ensures
        word_len(s) <= s.len(),
    decreases s.len(),
{
    if s.len() > 0 {
        lemma_word_len(s.drop_first());
    }
}

/// Stripping the front never lengthens a text and leaves no strippable character in front.
pub proof fn lemma_trim_front(set: CharSet, s: Seq<char>)
    ensures
        trim_front(set, s).len() <= s.len(),
        trim_front(set, s).len() > 0 ==> !in_set(set, trim_front(set, s)[0]),
    decreases s.len(),
{
    if s.len() > 0 {
        lemma_trim_front(set, s.drop_first());
    }
}

/// The words of `s`: its longest stretches without white space, in order.
pub open spec fn words(s: Seq<char>) -> Seq<Seq<char>>
    decreases s.len(),
{
    let t = trim_front(CharSet::White, s);
    if t.len() == 0 {
        Seq::empty()
    } else {
        proof {
            lemma_trim_front(CharSet::White, s);
            lemma_word_len(t);
        }
        seq![t.take(word_len(t) as int)] + words(t.skip(word_len(t) as int))
    }
}

/// A character that is no white space is part of a word.
pub proof fn lemma_words_keep(s: Seq<char>, i: int) -> (w: int)
    requires
        0 <= i < s.len(),
        !is_white_space(s[i]),
    ensures
        0 <= w < words(s).len(),
        words(s)[w].contains(s[i]),
    decreases s.len(),
{
    let k = lemma_trim_front_keeps(s, i);
    let t = trim_front(CharSet::White, s);
    let n = word_len(t);
    lemma_trim_front(CharSet::White, s);
    lemma_word_len(t);
    let rest = words(t.skip(n as int));
    if k < n {
        assert(t.take(n as int)[k] == s[i]);
        0
    } else {
        assert(t.skip(n as int)[k - n] == s[i]);
        let w = lemma_words_keep(t.skip(n as int), k - n);
        assert(words(s)[w + 1] == rest[w]);
        w + 1
    }
}

proof fn lemma_trim_front_keeps(s: Seq<char>, i: int) -> (k: int)
    requires
        0 <= i < s.len(),
        !is_white_space(s[i]),
    ensures
        0 <= k < trim_front(CharSet::White, s).len(),
        trim_front(CharSet::White, s)[k] == s[i],
    decreases s.len(),
{
    if in_set(CharSet::White, s[0]) {
        lemma_trim_front_keeps(s.drop_first(), i - 1)
    } else {
        i
    }
}

/// Whether the words of a text are one blank apart, with nothing in front of them or behind.
pub open spec fn is_spaced(s: Seq<char>) -> bool {
    &&& s.len() > 0
    &&& !is_white_space(s[0])
    &&& !is_white_space(s.last())
    &&& forall|i: int|
        0 <= i < s.len() && is_white_space(#[trigger] s[i]) ==> s[i] == ' ' && !is_white_space(
            s[i + 1],
        )
}

proof fn lemma_word(s: Seq<char>)
    ensures
        word_len(s) <= s.len(),
        forall|i: int| 0 <= i < word_len(s) ==> !is_white_space(#[trigger] s[i]),
        word_len(s) < s.len() ==> is_white_space(s[word_len(s) as int]),
    decreases s.len(),
{
    if s.len() > 0 && !is_white_space(s[0]) {
        let rest = s.drop_first();
        lemma_word(rest);
        assert forall|i: int| 0 <= i < word_len(s) implies !is_white_space(#[trigger] s[i]) by {
            if i > 0 {
                assert(rest[i - 1] == s[i]);
            }
        }
        if word_len(s) < s.len() {
            assert(rest[word_len(rest) as int] == s[word_len(s) as int]);
        }
    }
}

proof fn lemma_join_front(first: Seq<char>, parts: Seq<Seq<char>>, separator: Seq<char>)
    requires
        parts.len() > 0,
    ensures
        join_text(seq![first] + parts, separator) == first + separator + join_text(
            parts,
            separator,
        ),
    decreases parts.len(),
{
    let all = seq![first] + parts;
    assert(all.last() == parts.last());
    assert(all.drop_last() == seq![first] + parts.drop_last());
    if parts.len() == 1 {
        assert(all.drop_last() == seq![first]);
        assert(join_text(seq![first], separator) == first);
    } else {
        lemma_join_front(first, parts.drop_last(), separator);
        assert((first + separator + join_text(parts.drop_last(), separator)) + separator
            + parts.last() == first + separator + (join_text(parts.drop_last(), separator)
            + separator + parts.last()));
    }
}

/// A text whose words are one blank apart is its words, one blank apart.
pub proof fn lemma_spaced_is_joined(s: Seq<char>)
    requires
        is_spaced(s),
    ensures
        join_text(words(s), " "@) == s,
        words(s).len() > 0,
    decreases s.len(),
{
    reveal_strlit(" ");
    lemma_word(s);
    let n = word_len(s);
    assert(trim_front(CharSet::White, s) == s);
    let rest = s.skip(n as int);
    let word = s.take(n as int);
    assert(words(s) == seq![word] + words(rest));
    if n == s.len() {
        assert(rest == Seq::<char>::empty());
        assert(trim_front(CharSet::White, rest) == rest);
        assert(words(rest) == Seq::<Seq<char>>::empty());
        assert(words(s) == seq![word]);
        assert(word == s);
    } else {
        assert(s[n as int] == ' ');
        let tail = s.skip((n + 1) as int);
        assert(rest[0] == ' ');
        assert(rest.drop_first() == tail);
        assert(n + 1 < s.len());
        assert(tail[0] == s[(n + 1) as int]);
        assert(tail.last() == s.last());
        assert forall|i: int| 0 <= i < tail.len() && is_white_space(#[trigger] tail[i]) implies
            tail[i] == ' ' && !is_white_space(tail[i + 1]) by {
            assert(tail[i] == s[i + n + 1]);
        }
        assert(trim_front(CharSet::White, tail) == tail);
        assert(trim_front(CharSet::White, rest) == tail);
        assert(words(rest) == words(tail));
        lemma_spaced_is_joined(tail);
        lemma_join_front(word, words(tail), " "@);
        assert(word + " "@ + tail == s);
    }
}

/// What a part holds, the joined text holds.
pub proof fn lemma_join_keeps(parts: Seq<Seq<char>>, separator: Seq<char>, i: int, c: char)
    requires
        0 <= i < parts.len(),
        parts[i].contains(c),
    ensures
        join_text(parts, separator).contains(c),
    decreases parts.len(),
{
    let whole = join_text(parts, separator);
    if parts.len() > 1 {
        let front = join_text(parts.drop_last(), separator);
        if i == parts.len() - 1 {
            let k = parts[i].index_of(c);
            assert(whole[front.len() + separator.len() + k] == c);
        } else {
            lemma_join_keeps(parts.drop_last(), separator, i, c);
            let k = front.index_of(c);
            assert(whole[k] == c);
        }
    }
}

/// Splits `chars` into words.
pub fn words_of(chars: &[char]) -> (list: Vec<String>)
    ensures
        views(list@) == words(chars@),
{
    let mut list: Vec<String> = Vec::new();
    let mut rest = trim_front_of(CharSet::White, chars);
    proof {
        lemma_trim_front(CharSet::White, chars@);
        lemma_trim_front_twice(CharSet::White, chars@);
        assert(words(chars@) == words(rest@));
    }
    while rest.len() > 0
        invariant
            words(chars@) == views(list@) + words(rest@),
            rest@ == trim_front(CharSet::White, rest@),
        decreases rest.len(),
    {
        let mut end: usize = 0;
        assert(rest@.skip(0) == rest@);
        while end < rest.len() && !belongs(CharSet::White, rest[end])
            invariant
                end <= rest.len(),
                word_len(rest@) == end + word_len(rest@.skip(end as int)),
            decreases rest.len() - end,
        {
            assert(rest@.skip(end as int).drop_first() == rest@.skip(end + 1));
            end += 1;
        }
        proof {
            lemma_trim_front(CharSet::White, rest@);
            assert(rest@.skip(end as int).len() == 0 || is_white_space(rest@.skip(end as int)[0]));
        }
        assert(word_len(rest@) == end);
        let ghost before = list@;
        list.push(from_chars(slice_subrange(rest, 0, end)));
        let after = slice_subrange(rest, end, rest.len());
        let next = trim_front_of(CharSet::White, after);
        proof {
            let tail = rest@.skip(end as int);
            assert(after@ == tail);
            assert(views(list@) == views(before).push(rest@.take(end as int)));
            assert(words(rest@) == seq![rest@.take(end as int)] + words(tail));
            lemma_trim_front(CharSet::White, tail);
            lemma_trim_front_twice(CharSet::White, tail);
            assert(words(tail) == words(next@));
            assert(views(before) + (seq![rest@.take(end as int)] + words(tail)) == views(list@)
                + words(next@));
            assert(end > 0);
        }
        rest = next;
    }
    proof {
        lemma_trim_front(CharSet::White, rest@);
        assert(words(rest@) == Seq::<Seq<char>>::empty());
    }
    list
}

proof fn lemma_trim_front_twice(set: CharSet, s: Seq<char>)
    ensures
        trim_front(set, trim_front(set, s)) == trim_front(set, s),
    decreases s.len(),
{
    if s.len() > 0 {
        lemma_trim_front_twice(set, s.drop_first());
    }
}

/// Whether `pattern` stands in `s` at index `i`.
pub open spec fn occurs_at<T>(s: Seq<T>, pattern: Seq<T>, i: int) -> bool {
    0 <= i && i + pattern.len() <= s.len() && s.subrange(i, i + pattern.len()) == pattern
}

/// The first index from `i` on at which `pattern` stands in `s`.
pub open spec fn find_from<T>(s: Seq<T>, pattern: Seq<T>, i: nat) -> Option<nat>
    decreases s.len() + 1 - i,
{
    if i + pattern.len() > s.len() {
        None
    } else if occurs_at(s, pattern, i as int) {
        Some(i)
    } else {
        find_from(s, pattern, i + 1)
    }
}

/// The first index at which `pattern` stands in `s`.
pub open spec fn find<T>(s: Seq<T>, pattern: Seq<T>) -> Option<nat> {
    find_from(s, pattern, 0)
}

/// What `find_from` finds is the first occurrence, and it finds one whenever there is one.
pub proof fn lemma_find_from<T>(s: Seq<T>, pattern: Seq<T>, i: nat)
    ensures
        match find_from(s, pattern, i) {
            Some(k) => {
                &&& i <= k
                &&& occurs_at(s, pattern, k as int)
                &&& forall|j: int| i <= j < k ==> !occurs_at(s, pattern, j)
            },
            None => forall|j: int| i <= j ==> !occurs_at(s, pattern, j),
        },
    decreases s.len() + 1 - i,
{
    if i + pattern.len() <= s.len() && !occurs_at(s, pattern, i as int) {
        lemma_find_from(s, pattern, i + 1);
    }
}

/// Whether `pattern` stands in `chars` at index `at`.
pub fn stands_at(chars: &[char], pattern: &[char], at: usize) -> (stands: bool)
    ensures
        stands == occurs_at(chars@, pattern@, at as int),
{
    if at > chars.len() || pattern.len() > chars.len() - at {
        return false;
    }
    for i in 0..pattern.len()
        invariant
            at + pattern.len() <= chars.len(),
            forall|j: int| 0 <= j < i ==> chars@[at + j] == pattern@[j],
    {
        if chars[at + i] != pattern[i] {
            proof {
                assert(chars@.subrange(at as int, at + pattern.len())[i as int] == chars@[at + i]);
            }
            return false;
        }
    }
    assert(chars@.subrange(at as int, at + pattern.len()) == pattern@);
    true
}

/// Finds the first occurrence of `pattern`.
pub fn find_in(chars: &[char], pattern: &[char]) -> (index: Option<usize>)
    ensures
        match index {
            Some(i) => find(chars@, pattern@) == Some(i as nat),
            None => find(chars@, pattern@) is None,
        },
{
    if pattern.len() > chars.len() {
        return None;
    }
    let last = chars.len() - pattern.len();
    let mut i: usize = 0;
    while i <= last
        invariant
            last == chars.len() - pattern.len(),
            i <= last + 1,
            find(chars@, pattern@) == find_from(chars@, pattern@, i as nat),
        decreases last + 1 - i,
    {
        if stands_at(chars, pattern, i) {
            return Some(i);
        }
        if i == last {
            assert(find_from(chars@, pattern@, (i + 1) as nat) is None);
            return None;
        }
        i += 1;
    }
    None
}

/// Whether `s` starts with `prefix`.
pub open spec fn has_prefix(s: Seq<char>, prefix: Seq<char>) -> bool {
    occurs_at(s, prefix, 0)
}

/// `s` without the prefix in front, where it has it.
pub open spec fn strip_prefix(s: Seq<char>, prefix: Seq<char>) -> Option<Seq<char>> {
    if has_prefix(s, prefix) {
        Some(s.skip(prefix.len() as int))
    } else {
        None
    }
}

/// What follows `prefix` in `chars`, where they start with it.
pub fn strip_prefix_of<'a>(chars: &'a [char], prefix: &str) -> (rest: Option<&'a [char]>)
    ensures
        match rest {
            Some(r) => strip_prefix(chars@, prefix@) == Some(r@),
            None => strip_prefix(chars@, prefix@) is None,
        },
{
    let pattern = to_chars(prefix);
    if stands_at(chars, pattern.as_slice(), 0) {
        let rest = slice_subrange(chars, pattern.len(), chars.len());
        assert(rest@ == chars@.skip(prefix@.len() as int));
        Some(rest)
    } else {
        None
    }
}

/// `s` without the repetitions of `prefix` in front of it.
pub open spec fn trim_prefix(s: Seq<char>, prefix: Seq<char>) -> Seq<char>
    decreases s.len(),
{
    if prefix.len() > 0 && has_prefix(s, prefix) {
        trim_prefix(s.skip(prefix.len() as int), prefix)
    } else {
        s
    }
}

/// Strips every repetition of a non-empty `prefix` from the front.
pub fn trim_prefix_of<'a>(chars: &'a [char], prefix: &str) -> (rest: &'a [char])
    ensures
        rest@ == trim_prefix(chars@, prefix@),
{
    let pattern = to_chars(prefix);
    let mut rest = chars;
    if pattern.len() == 0 {
        return rest;
    }
    while stands_at(rest, pattern.as_slice(), 0)
        invariant
            pattern@ == prefix@,
            pattern@.len() > 0,
            trim_prefix(chars@, prefix@) == trim_prefix(rest@, prefix@),
        decreases rest.len(),
    {
        let next = slice_subrange(rest, pattern.len(), rest.len());
        assert(next@ == rest@.skip(prefix@.len() as int));
        rest = next;
    }
    rest
}

/// `s` split at the first occurrence of `separator`: what stands before it and what follows it.
pub open spec fn split_at_first(s: Seq<char>, separator: Seq<char>) -> Option<(Seq<char>, Seq<char>)> {
    match find(s, separator) {
        Some(i) => Some((s.take(i as int), s.skip((i + separator.len()) as int))),
        None => None,
    }
}

/// Splits `chars` at the first occurrence of `separator`.
pub fn split_once_of<'a>(chars: &'a [char], separator: &str) -> (halves: Option<(
    &'a [char],
    &'a [char],
)>)
    ensures
        match halves {
            Some(h) => split_at_first(chars@, separator@) == Some((h.0@, h.1@)),
            None => split_at_first(chars@, separator@) is None,
        },
{
    let pattern = to_chars(separator);
    match find_in(chars, pattern.as_slice()) {
        Some(i) => {
            proof {
                lemma_find_from(chars@, separator@, 0);
            }
            let len = chars.len();
            let front = slice_subrange(chars, 0, i);
            let back = slice_subrange(chars, i + pattern.len(), len);
            assert(front@ == chars@.take(i as int));
            assert(back@ == chars@.skip(i + separator@.len()));
            Some((front, back))
        },
        None => None,
    }
}

/// `s` without a carriage return at its end.
pub open spec fn without_return(s: Seq<char>) -> Seq<char> {
    if s.len() > 0 && s.last() == '\r' {
        s.drop_last()
    } else {
        s
    }
}

/// The length of the longest front of `s` without a line feed.
pub open spec fn line_len(s: Seq<char>) -> nat
    decreases s.len(),
{
    if s.len() == 0 || s[0] == '\n' {
        0
    } else {
        1 + line_len(s.drop_first())
    }
}

/// A line at the front of a text is no longer than the text.
pub proof fn lemma_line_len(s: Seq<char>)
    ensures
        line_len(s) <= s.len(),
    decreases s.len(),
{
    if s.len() > 0 {
        lemma_line_len(s.drop_first());
    }
}

/// The lines of `s`: each ends at a line feed, which is dropped together with a carriage return
/// in front of it, or at the end of the text; an empty rest after the last line feed is no line.
pub open spec fn lines(s: Seq<char>) -> Seq<Seq<char>>
    decreases s.len(),
{
    if s.len() == 0 {
        Seq::empty()
    } else if line_len(s) < s.len() {
        seq![without_return(s.take(line_len(s) as int))] + lines(s.skip((line_len(s) + 1) as int))
    } else {
        seq![s]
    }
}

/// The views of a list of slices.
pub open spec fn slice_views(list: Seq<&[char]>) -> Seq<Seq<char>> {
    list.map_values(|slice: &[char]| slice@)
}

/// Splits `chars` into lines.
pub fn lines_of<'a>(chars: &'a [char]) -> (list: Vec<&'a [char]>)
    ensures
        slice_views(list@) == lines(chars@),
{
    let mut list: Vec<&'a [char]> = Vec::new();
    let mut start: usize = 0;
    assert(chars@.skip(0) == chars@);
    while start < chars.len()
        invariant
            start <= chars.len(),
            lines(chars@) == slice_views(list@) + lines(chars@.skip(start as int)),
        decreases chars.len() - start,
    {
        let ghost rest = chars@.skip(start as int);
        let mut end: usize = start;
        assert(rest.skip(0) == rest);
        while end < chars.len() && chars[end] != '\n'
            invariant
                start <= end <= chars.len(),
                rest == chars@.skip(start as int),
                line_len(rest) == end - start + line_len(rest.skip(end - start)),
            decreases chars.len() - end,
        {
            assert(rest.skip(end - start).drop_first() == rest.skip(end - start + 1));
            end += 1;
        }
        let ghost before = list@;
        if end < chars.len() {
            assert(rest.skip(end - start)[0] == '\n');
            assert(line_len(rest) == end - start);
            let mut stop = end;
            assert(chars@.subrange(start as int, end as int) == rest.take(end - start));
            if stop > start && chars[stop - 1] == '\r' {
                stop -= 1;
                assert(chars@.subrange(start as int, stop as int) == rest.take(
                    end - start,
                ).drop_last());
            }
            list.push(slice_subrange(chars, start, stop));
            proof {
                let line = without_return(rest.take(end - start));
                assert(slice_views(list@) == slice_views(before).push(line));
                assert(rest.skip(end - start + 1) == chars@.skip(end + 1));
                assert(slice_views(before) + (seq![line] + lines(chars@.skip(end + 1)))
                    == slice_views(list@) + lines(chars@.skip(end + 1)));
            }
            start = end + 1;
        } else {
            assert(line_len(rest) == rest.len());
            list.push(slice_subrange(chars, start, end));
            proof {
                assert(chars@.subrange(start as int, end as int) == rest);
                assert(slice_views(list@) == slice_views(before).push(rest));
                assert(lines(chars@.skip(end as int)) == Seq::<Seq<char>>::empty());
                assert(slice_views(before) + seq![rest] == slice_views(list@) + Seq::<
                    Seq<char>,
                >::empty());
            }
            start = end;
        }
    }
    proof {
        assert(lines(chars@.skip(start as int)) == Seq::<Seq<char>>::empty());
        assert(slice_views(list@) + Seq::<Seq<char>>::empty() == slice_views(list@));
    }
    list
}

/// `s` with every backslash turned into a slash.
pub open spec fn forward_slashes(s: Seq<char>) -> Seq<char> {
    s.map_values(|c: char| if c == '\\' { '/' } else { c })
}

/// Turns every backslash of `chars` into a slash.
pub fn forward_slashes_of(chars: &[char]) -> (result: Vec<char>)
    ensures
        result@ == forward_slashes(chars@),
{
    let mut result: Vec<char> = Vec::new();
    for i in 0..chars.len()
        invariant
            result@ == forward_slashes(chars@).take(i as int),
    {
        let c = chars[i];
        result.push(if c == '\\' { '/' } else { c });
    }
    assert(forward_slashes(chars@).take(chars.len() as int) == forward_slashes(chars@));
    result
}

/// `s` with every carriage return that a line feed follows taken out.
pub open spec fn unix_lines(s: Seq<char>) -> Seq<char>
    decreases s.len(),
{
    if s.len() == 0 {
        Seq::empty()
    } else if s.len() >= 2 && s[0] == '\r' && s[1] == '\n' {
        seq!['\n'] + unix_lines(s.skip(2))
    } else {
        seq![s[0]] + unix_lines(s.skip(1))
    }
}

/// Takes every carriage return out that a line feed follows.
pub fn unix_lines_of(chars: &[char]) -> (result: Vec<char>)
    ensures
        result@ == unix_lines(chars@),
{
    let mut result: Vec<char> = Vec::new();
    let mut i: usize = 0;
    assert(chars@.skip(0) == chars@);
    while i < chars.len()
        invariant
            i <= chars.len(),
            unix_lines(chars@) == result@ + unix_lines(chars@.skip(i as int)),
        decreases chars.len() - i,
    {
        let ghost rest = chars@.skip(i as int);
        let ghost before = result@;
        if chars[i] == '\r' && chars.len() - i >= 2 && chars[i + 1] == '\n' {
            result.push('\n');
            proof {
                assert(rest.skip(2) == chars@.skip(i + 2));
                assert(before + (seq!['\n'] + unix_lines(chars@.skip(i + 2))) == result@
                    + unix_lines(chars@.skip(i + 2)));
            }
            i += 2;
        } else {
            result.push(chars[i]);
            proof {
                assert(rest.skip(1) == chars@.skip(i + 1));
                assert(before + (seq![rest[0]] + unix_lines(chars@.skip(i + 1))) == result@
                    + unix_lines(chars@.skip(i + 1)));
            }
            i += 1;
        }
    }
    assert(chars@.skip(i as int) == Seq::<char>::empty());
    assert(result@ + Seq::<char>::empty() == result@);
    result
}

/// Whether `s` holds the character `c`.
pub fn holds_char(chars: &[char], c: char) -> (held: bool)
    ensures
        held == chars@.contains(c),
{
    for i in 0..chars.len()
        invariant
            forall|j: int| 0 <= j < i ==> chars@[j] != c,
    {
        if chars[i] == c {
            return true;
        }
    }
    false
}

/// ASCII letters and digits.
pub open spec fn is_ascii_alnum(c: char) -> bool {
    'a' <= c <= 'z' || 'A' <= c <= 'Z' || '0' <= c <= '9'
}

/// Whether `c` is an ASCII letter or digit.
pub fn ascii_alnum(c: char) -> (r: bool)
    ensures
        r == is_ascii_alnum(c),
{
    ('a' <= c && c <= 'z') || ('A' <= c && c <= 'Z') || ('0' <= c && c <= '9')
}

/// Letters, digits, `-` and `_` only, and at least one of them.
pub open spec fn is_plain_id(s: Seq<char>) -> bool {
    s.len() > 0 && forall|i: int|
        0 <= i < s.len() ==> is_ascii_alnum(#[trigger] s[i]) || s[i] == '-' || s[i] == '_'
}

/// Whether `text` is a non-empty run of ASCII letters, digits, `-` and `_`.
pub fn plain_id(text: &str) -> (plain: bool)
    ensures
        plain == is_plain_id(text@),
{
    let chars = to_chars(text);
    if chars.len() == 0 {
        return false;
    }
    for i in 0..chars.len()
        invariant
            chars@ == text@,
            forall|j: int|
                0 <= j < i ==> is_ascii_alnum(#[trigger] chars@[j]) || chars@[j] == '-'
                    || chars@[j] == '_',
    {
        let c = chars[i];
        if !(ascii_alnum(c) || c == '-' || c == '_') {
            return false;
        }
    }
    true
}

/// A number in decimal is a plain identifier.
pub proof fn lemma_decimal_is_plain(number: nat)
    ensures
        is_plain_id(decimal_text(number)),
    decreases number,
{
    if number >= 10 {
        lemma_decimal_is_plain(number / 10);
    }
}

/// Plain identifiers with a dash between them are a plain identifier.
pub proof fn lemma_dashed_is_plain(a: Seq<char>, b: Seq<char>)
    requires
        is_plain_id(a),
        is_plain_id(b),
    ensures
        is_plain_id(a + "-"@ + b),
{
    reveal_strlit("-");
    let whole = a + "-"@ + b;
    assert forall|i: int| 0 <= i < whole.len() implies is_ascii_alnum(#[trigger] whole[i])
        || whole[i] == '-' || whole[i] == '_' by {
        if i < a.len() {
            assert(whole[i] == a[i]);
        } else if i > a.len() {
            assert(whole[i] == b[i - a.len() - 1]);
        }
    }
}

/// A plain identifier names no other directory: it holds no separator and no dot.
pub proof fn law_plain_ids_cannot_traverse(s: Seq<char>)
    requires
        is_plain_id(s),
    ensures
        !s.contains('/'),
        !s.contains('\\'),
        !s.contains('.'),
{
}

/// The value of a decimal digit.
pub open spec fn digit_value(c: char) -> Option<nat> {
    if '0' <= c <= '9' {
        Some((c as nat - '0' as nat) as nat)
    } else {
        None
    }
}

/// The number that a text of decimal digits stands for.
pub open spec fn digits_value(s: Seq<char>) -> Option<nat>
    decreases s.len(),
{
    if s.len() == 0 {
        Some(0)
    } else {
        match (digits_value(s.drop_last()), digit_value(s.last())) {
            (Some(high), Some(low)) => Some(high * 10 + low),
            _ => None,
        }
    }
}

/// The unsigned 64-bit number that a text stands for: decimal digits, at least one, with or
/// without a plus sign in front, and a value that fits.
pub open spec fn u64_value(s: Seq<char>) -> Option<u64> {
    let digits = if s.len() > 0 && s[0] == '+' { s.drop_first() } else { s };
    match digits_value(digits) {
        Some(n) => if digits.len() > 0 && n <= u64::MAX { Some(n as u64) } else { None },
        None => None,
    }
}

proof fn lemma_digits_value_prefix(s: Seq<char>, i: int)
    requires
        0 <= i <= s.len(),
    ensures
        digits_value(s) is Some ==> digits_value(s.take(i)) is Some,
        digits_value(s) is Some ==> digits_value(s.take(i))->0 <= digits_value(s)->0,
    decreases s.len(),
{
    if i == s.len() {
        assert(s.take(i) == s);
    } else {
        lemma_digits_value_prefix(s.drop_last(), i);
        assert(s.drop_last().take(i) == s.take(i));
    }
}

/// Reads an unsigned number in decimal.
pub fn parse_u64(chars: &[char]) -> (number: Option<u64>)
    ensures
        number == u64_value(chars@),
{
    let start: usize = if chars.len() > 0 && chars[0] == '+' { 1 } else { 0 };
    let digits = slice_subrange(chars, start, chars.len());
    assert(digits@ == (if chars@.len() > 0 && chars@[0] == '+' { chars@.drop_first() } else { chars@ }));
    if digits.len() == 0 {
        return None;
    }
    let mut value: u64 = 0;
    for i in 0..digits.len()
        invariant
            digits_value(digits@.take(i as int)) == Some(value as nat),
            digits@ == (if chars@.len() > 0 && chars@[0] == '+' {
                chars@.drop_first()
            } else {
                chars@
            }),
    {
        let c = digits[i];
        proof {
            assert(digits@.take(i + 1).drop_last() == digits@.take(i as int));
            lemma_digits_value_prefix(digits@, i + 1);
        }
        if !('0' <= c && c <= '9') {
            return None;
        }
        let low: u64 = (c as u32 - '0' as u32) as u64;
        if value > (u64::MAX - low) / 10 {
            return None;
        }
        value = value * 10 + low;
    }
    assert(digits@.take(digits.len() as int) == digits@);
    Some(value)
}

/// What `String::from_utf8` says of bytes that are not UTF-8.
pub uninterp spec fn utf8_fault(bytes: Seq<u8>) -> Seq<char>;

/// `String::from_utf8` gives the text that the bytes encode where they are UTF-8, and otherwise an
/// error, handed on here as the text that it displays.
#[verifier::external_body]
pub(crate) fn utf8_text(bytes: Vec<u8>) -> (text: Result<String, String>)
    ensures
        match text {
            Ok(t) => vstd::utf8::valid_utf8(bytes@) && t@ == vstd::utf8::decode_utf8(bytes@),
            Err(fault) => !vstd::utf8::valid_utf8(bytes@) && fault@ == utf8_fault(bytes@),
        },
{
    String::from_utf8(bytes).map_err(|error| error.to_string())
}

/// What `String::from_utf8_lossy` makes of bytes that are not UTF-8.
pub uninterp spec fn utf8_repaired(bytes: Seq<u8>) -> Seq<char>;

/// The text of bytes: what they encode, or their repaired form where they are not UTF-8.
pub open spec fn lossy_text(bytes: Seq<u8>) -> Seq<char> {
    if vstd::utf8::valid_utf8(bytes) {
        vstd::utf8::decode_utf8(bytes)
    } else {
        utf8_repaired(bytes)
    }
}

/// `String::from_utf8_lossy` gives the text that the bytes encode where they are UTF-8, and
/// otherwise one with replacement characters in it.
#[verifier::external_body]
pub(crate) fn utf8_lossy(bytes: &[u8]) -> (text: String)
    ensures
        text@ == (if vstd::utf8::valid_utf8(bytes@) {
            vstd::utf8::decode_utf8(bytes@)
        } else {
            utf8_repaired(bytes@)
        }),
{
    String::from_utf8_lossy(bytes).into_owned()
}

/// Sorted texts with one more in its place.
pub open spec fn with_sorted(sorted: Seq<Seq<char>>, text: Seq<char>) -> Seq<Seq<char>>
    decreases sorted.len(),
{
    if sorted.len() == 0 || !text_lt(text, sorted.last()) {
        sorted.push(text)
    } else {
        with_sorted(sorted.drop_last(), text).push(sorted.last())
    }
}

/// Texts in order.
pub open spec fn sorted_texts(texts: Seq<Seq<char>>) -> Seq<Seq<char>>
    decreases texts.len(),
{
    if texts.len() == 0 {
        Seq::empty()
    } else {
        with_sorted(sorted_texts(texts.drop_last()), texts.last())
    }
}

/// Whether no text comes before one in front of it.
pub open spec fn in_text_order(texts: Seq<Seq<char>>) -> bool {
    forall|i: int, j: int|
        0 <= i < j < texts.len() ==> !text_lt(#[trigger] texts[j], #[trigger] texts[i])
}

proof fn lemma_with_sorted(sorted: Seq<Seq<char>>, text: Seq<char>)
    requires
        in_text_order(sorted),
    ensures
        in_text_order(with_sorted(sorted, text)),
        with_sorted(sorted, text).to_multiset() == sorted.push(text).to_multiset(),
        forall|i: int|
            0 <= i < with_sorted(sorted, text).len() ==> {
                let found = #[trigger] with_sorted(sorted, text)[i];
                found == text || sorted.contains(found)
            },
    decreases sorted.len(),
{
    broadcast use vstd::seq_lib::group_to_multiset_ensures;

    let whole = with_sorted(sorted, text);
    if sorted.len() > 0 && text_lt(text, sorted.last()) {
        let front = sorted.drop_last();
        let last = sorted.last();
        assert forall|i: int, j: int| 0 <= i < j < front.len() implies !text_lt(
            #[trigger] front[j],
            #[trigger] front[i],
        ) by {
            assert(front[i] == sorted[i] && front[j] == sorted[j]);
        }
        lemma_with_sorted(front, text);
        let inner = with_sorted(front, text);
        assert(sorted == front.push(last));
        assert(whole.to_multiset() == sorted.push(text).to_multiset());
        lemma_text_lt_asymmetric(text, last);
        assert forall|i: int, j: int| 0 <= i < j < whole.len() implies !text_lt(
            #[trigger] whole[j],
            #[trigger] whole[i],
        ) by {
            assert(whole[i] == inner[i]);
            if j < inner.len() {
                assert(whole[j] == inner[j]);
            } else if inner[i] != text {
                let k = front.index_of(inner[i]);
                assert(sorted[k] == inner[i]);
                assert(!text_lt(sorted[sorted.len() - 1], sorted[k]));
            }
        }
        assert forall|i: int| 0 <= i < whole.len() implies {
            let found = #[trigger] whole[i];
            found == text || sorted.contains(found)
        } by {
            if i < inner.len() {
                assert(whole[i] == inner[i]);
                if inner[i] != text {
                    let k = front.index_of(inner[i]);
                    assert(sorted[k] == inner[i]);
                }
            } else {
                assert(sorted[sorted.len() - 1] == whole[i]);
            }
        }
    } else {
        assert forall|i: int, j: int| 0 <= i < j < whole.len() implies !text_lt(
            #[trigger] whole[j],
            #[trigger] whole[i],
        ) by {
            assert(whole[i] == sorted[i]);
            if j < sorted.len() {
                assert(whole[j] == sorted[j]);
            } else if i < sorted.len() - 1 {
                assert(!text_lt(sorted[sorted.len() - 1], sorted[i]));
                if text_lt(text, sorted[i]) {
                    lemma_text_lt_total(sorted[i], sorted.last());
                    if text_lt(sorted[i], sorted.last()) {
                        lemma_text_lt_transitive(text, sorted[i], sorted.last());
                    }
                }
            }
        }
        assert forall|i: int| 0 <= i < whole.len() implies {
            let found = #[trigger] whole[i];
            found == text || sorted.contains(found)
        } by {
            if i < sorted.len() {
                assert(sorted[i] == whole[i]);
            }
        }
    }
}

proof fn lemma_text_lt_asymmetric(a: Seq<char>, b: Seq<char>)
    requires
        text_lt(a, b),
    ensures
        !text_lt(b, a),
{
    if text_lt(b, a) {
        lemma_text_lt_transitive(a, b, a);
        lemma_text_lt_irreflexive(a);
    }
}

/// Sorting puts texts in order and keeps each of them as often as it was there.
pub proof fn law_sorting_sorts(texts: Seq<Seq<char>>)
    ensures
        in_text_order(sorted_texts(texts)),
        sorted_texts(texts).to_multiset() == texts.to_multiset(),
    decreases texts.len(),
{
    broadcast use vstd::seq_lib::group_to_multiset_ensures;

    if texts.len() > 0 {
        let front = texts.drop_last();
        law_sorting_sorts(front);
        lemma_with_sorted(sorted_texts(front), texts.last());
        assert(texts == front.push(texts.last()));
    }
}

/// Puts texts in order.
pub fn sort(texts: Vec<String>) -> (sorted: Vec<String>)
    ensures
        views(sorted@) == sorted_texts(views(texts@)),
{
    let ghost all = views(texts@);
    let mut sorted: Vec<String> = Vec::new();
    assert(all.take(0) == Seq::<Seq<char>>::empty());
    for i in 0..texts.len()
        invariant
            all == views(texts@),
            views(sorted@) == sorted_texts(all.take(i as int)),
    {
        let ghost before = views(sorted@);
        let text = texts[i].clone();
        let mut at = sorted.len();
        assert(before.take(at as int) == before);
        while at > 0 && text_before(text.as_str(), sorted[at - 1].as_str())
            invariant
                at <= sorted.len(),
                before == views(sorted@),
                with_sorted(before, text@) == with_sorted(before.take(at as int), text@)
                    + before.skip(at as int),
            decreases at,
        {
            proof {
                let shorter = before.take(at - 1);
                assert(before.take(at as int).drop_last() == shorter);
                assert(before.take(at as int).last() == before[at - 1]);
                assert(with_sorted(shorter, text@).push(before[at - 1]) + before.skip(at as int)
                    == with_sorted(shorter, text@) + before.skip(at - 1));
            }
            at -= 1;
        }
        proof {
            if at > 0 {
                assert(before.take(at as int).last() == before[at - 1]);
            }
            assert(all.take(i + 1).drop_last() == all.take(i as int));
        }
        sorted.insert(at, text);
        assert(views(sorted@) == before.take(at as int).push(text@) + before.skip(at as int));
    }
    assert(all.take(texts.len() as int) == all);
    sorted
}

/// What is left of a text whose back is stripped is the longest front of it that does not end with a
/// character of the set.
pub proof fn lemma_trim_back(set: CharSet, s: Seq<char>)
    ensures
        trim_back(set, s).is_prefix_of(s),
        forall|i: int|
            trim_back(set, s).len() <= i < s.len() ==> in_set(set, #[trigger] s[i]),
        trim_back(set, s).len() > 0 ==> !in_set(set, trim_back(set, s).last()),
    decreases s.len(),
{
    if s.len() > 0 && in_set(set, s.last()) {
        let front = s.drop_last();
        lemma_trim_back(set, front);
        assert(trim_back(set, front).is_prefix_of(s)) by {
            assert(s.take(trim_back(set, front).len() as int) == front.take(
                trim_back(set, front).len() as int,
            ));
        }
        assert forall|i: int| trim_back(set, s).len() <= i < s.len() implies in_set(
            set,
            #[trigger] s[i],
        ) by {
            if i < front.len() {
                assert(front[i] == s[i]);
            }
        }
    }
}

/// Stripping takes away what belongs to the set at an end, all of it, and nothing else: what is left
/// neither begins nor ends with it, and together with what was stripped makes up the text.
pub proof fn law_stripping_takes_ends_only(set: CharSet, s: Seq<char>) -> (cut: (int, int))
    ensures
        0 <= cut.0 <= cut.1 <= s.len(),
        trim_both(set, s) == s.subrange(cut.0, cut.1),
        forall|i: int| 0 <= i < cut.0 ==> in_set(set, #[trigger] s[i]),
        forall|i: int| cut.1 <= i < s.len() ==> in_set(set, #[trigger] s[i]),
        cut.0 < cut.1 ==> !in_set(set, s[cut.0]) && !in_set(set, s[cut.1 - 1]),
        trim_front(set, s) == s.skip(cut.0),
        cut.0 < s.len() ==> !in_set(set, s[cut.0]),
    decreases s.len(),
{
    let k = lemma_trim_front_cut(set, s);
    let rest = trim_front(set, s);
    lemma_trim_back(set, rest);
    let kept = trim_back(set, rest);
    assert(kept == rest.take(kept.len() as int));
    assert(kept == s.subrange(k, k + kept.len()));
    assert forall|i: int| k + kept.len() <= i < s.len() implies in_set(set, #[trigger] s[i]) by {
        assert(rest[i - k] == s[i]);
    }
    (k, k + kept.len())
}

proof fn lemma_trim_front_cut(set: CharSet, s: Seq<char>) -> (k: int)
    ensures
        0 <= k <= s.len(),
        trim_front(set, s) == s.skip(k),
        forall|i: int| 0 <= i < k ==> in_set(set, #[trigger] s[i]),
        k < s.len() ==> !in_set(set, s[k]),
    decreases s.len(),
{
    if s.len() > 0 && in_set(set, s[0]) {
        let rest = s.drop_first();
        let k = lemma_trim_front_cut(set, rest);
        assert(rest.skip(k) == s.skip(k + 1));
        assert forall|i: int| 0 <= i < k + 1 implies in_set(set, #[trigger] s[i]) by {
            if i > 0 {
                assert(rest[i - 1] == s[i]);
            }
        }
        k + 1
    } else {
        assert(s.skip(0) == s);
        0
    }
}

/// A number in decimal reads back as that number, starts with no zero but for zero itself, and has
/// one digit more for each ten times that it holds.
pub proof fn law_decimals_read_back(number: nat)
    ensures
        digits_value(decimal_text(number)) == Some(number),
        decimal_text(number).len() > 0,
        number > 0 ==> decimal_text(number)[0] != '0',
        number < 10 ==> decimal_text(number).len() == 1 && decimal_text(number)[0] as nat == 48
            + number,
        number >= 10 ==> decimal_text(number).drop_last() == decimal_text(number / 10)
            && decimal_text(number).last() as nat == 48 + number % 10,
        number <= u64::MAX ==> u64_value(decimal_text(number)) == Some(number as u64),
        forall|i: int|
            0 <= i < decimal_text(number).len() ==> '0' <= #[trigger] decimal_text(number)[i]
                <= '9',
    decreases number,
{
    let shown = decimal_text(number);
    if number >= 10 {
        law_decimals_read_back(number / 10);
        let front = decimal_text(number / 10);
        assert(shown.drop_last() == front);
        assert(shown[0] == front[0]);
        assert forall|i: int| 0 <= i < shown.len() implies '0' <= #[trigger] shown[i] <= '9' by {
            if i < front.len() {
                assert(shown[i] == front[i]);
            }
        }
    } else {
        assert(shown.drop_last() == Seq::<char>::empty());
        reveal_with_fuel(digits_value, 2);
    }
    assert(shown[0] != '+');
}

/// Two numbers in decimal are the same text only where they are the same number.
pub proof fn law_decimals_differ(a: nat, b: nat)
    requires
        decimal_text(a) == decimal_text(b),
    ensures
        a == b,
{
    law_decimals_read_back(a);
    law_decimals_read_back(b);
}

/// A text stands for a number exactly where it is digits, at least one, with or without a plus sign,
/// and the number fits; each digit counts ten times what the next one does.
pub proof fn law_numbers_are_read_digit_by_digit(s: Seq<char>, c: char)
    ensures
        '0' <= c <= '9' ==> (digits_value(s) matches Some(high) ==> digits_value(s.push(c))
            == Some((10 * high + (c as int - 48)) as nat)),
        !('0' <= c <= '9') ==> digits_value(s.push(c)) is None,
        digits_value(s) is None ==> digits_value(s.push(c)) is None,
        digits_value(Seq::<char>::empty()) == Some(0nat),
        u64_value(Seq::<char>::empty()) is None,
        s.len() > 0 && s[0] != '+' ==> u64_value(s) == match digits_value(s) {
            Some(n) => if n <= u64::MAX {
                Some(n as u64)
            } else {
                None
            },
            None => None,
        },
        s.len() > 0 && s[0] != '+' ==> u64_value(seq!['+'] + s) == u64_value(s),
{
    assert(s.push(c).drop_last() == s);
    assert((seq!['+'] + s).drop_first() == s);
}

/// Joined texts stand one behind the other, with the separator between each two: nothing is in front
/// of the first or behind the last.
pub proof fn law_joining_keeps_every_part(
    parts: Seq<Seq<char>>,
    part: Seq<char>,
    separator: Seq<char>,
)
    ensures
        join_text(Seq::<Seq<char>>::empty(), separator) == Seq::<char>::empty(),
        join_text(seq![part], separator) == part,
        parts.len() > 0 ==> join_text(parts.push(part), separator) == join_text(parts, separator)
            + separator + part,
{
    assert(parts.push(part).drop_last() == parts);
}

proof fn lemma_line_ends(line: Seq<char>, rest: Seq<char>)
    requires
        !line.contains('\n'),
    ensures
        line_len(line + seq!['\n'] + rest) == line.len(),
        line_len(line) == line.len(),
    decreases line.len(),
{
    let whole = line + seq!['\n'] + rest;
    if line.len() > 0 {
        let shorter = line.drop_first();
        assert forall|i: int| 0 <= i < shorter.len() implies shorter[i] != '\n' by {
            assert(shorter[i] == line[i + 1]);
            assert(line.contains(line[i + 1]));
        }
        assert(!shorter.contains('\n'));
        lemma_line_ends(shorter, rest);
        assert(whole.drop_first() == shorter + seq!['\n'] + rest);
        assert(line.contains(line[0]));
        assert(whole[0] == line[0]);
    } else {
        assert(whole[0] == '\n');
    }
}

/// A text falls into lines at its line feeds and nowhere else: what stands in front of the first one
/// is the first line, all its characters but for a carriage return at its end, and the rest falls
/// into the other lines. What follows the last line feed is a line unless it is empty.
pub proof fn law_lines_end_at_line_feeds(line: Seq<char>, rest: Seq<char>)
    requires
        !line.contains('\n'),
    ensures
        lines(Seq::<char>::empty()) == Seq::<Seq<char>>::empty(),
        line.len() > 0 ==> lines(line) == seq![line],
        line.len() == 0 || line.last() != '\r' ==> lines(line + seq!['\n'] + rest) == seq![line]
            + lines(rest),
        lines(line + seq!['\r', '\n'] + rest) == seq![line] + lines(rest),
{
    lemma_line_ends(line, rest);
    let plain = line + seq!['\n'] + rest;
    assert(plain.take(line.len() as int) == line);
    assert(plain.skip(line.len() as int + 1) == rest);
    let returned = line.push('\r');
    assert forall|i: int| 0 <= i < returned.len() implies returned[i] != '\n' by {
        if i < line.len() {
            assert(line.contains(line[i]));
        }
    }
    assert(!returned.contains('\n'));
    lemma_line_ends(returned, rest);
    let ended = line + seq!['\r', '\n'] + rest;
    assert(ended == returned + seq!['\n'] + rest);
    assert(ended.take(returned.len() as int) == returned);
    assert(ended.skip(returned.len() as int + 1) == rest);
    assert(returned.drop_last() == line);
}

proof fn lemma_word_ends(word: Seq<char>, rest: Seq<char>)
    requires
        forall|i: int| 0 <= i < word.len() ==> !is_white_space(#[trigger] word[i]),
        rest.len() == 0 || is_white_space(rest[0]),
    ensures
        word_len(word + rest) == word.len(),
    decreases word.len(),
{
    let whole = word + rest;
    if word.len() > 0 {
        let shorter = word.drop_first();
        assert forall|i: int| 0 <= i < shorter.len() implies !is_white_space(
            #[trigger] shorter[i],
        ) by {
            assert(shorter[i] == word[i + 1]);
        }
        lemma_word_ends(shorter, rest);
        assert(whole.drop_first() == shorter + rest);
        assert(whole[0] == word[0]);
    } else {
        assert(whole == rest);
    }
}

/// A text falls into words at its white space: white space in front does not matter, and a run of
/// other characters up to the next white space or the end is one word, unchanged.
pub proof fn law_words_end_at_white_space(word: Seq<char>, rest: Seq<char>, c: char)
    requires
        forall|i: int| 0 <= i < word.len() ==> !is_white_space(#[trigger] word[i]),
        word.len() > 0,
        rest.len() == 0 || is_white_space(rest[0]),
        is_white_space(c),
    ensures
        words(Seq::<char>::empty()) == Seq::<Seq<char>>::empty(),
        words(word + rest) == seq![word] + words(rest),
        words(seq![c] + word + rest) == words(word + rest),
        words(seq![c] + rest) == words(rest),
{
    let whole = word + rest;
    lemma_word_ends(word, rest);
    assert(whole[0] == word[0]);
    assert(trim_front(CharSet::White, whole) == whole);
    assert(whole.take(word.len() as int) == word);
    assert(whole.skip(word.len() as int) == rest);
    assert((seq![c] + word + rest).drop_first() == whole);
    assert((seq![c] + rest).drop_first() == rest);
    assert((seq![c] + word + rest)[0] == c);
}

/// Turning backslashes into slashes changes no other character and no position.
pub proof fn law_slashes_replace_backslashes(s: Seq<char>)
    ensures
        forward_slashes(s).len() == s.len(),
        forall|i: int|
            0 <= i < s.len() ==> #[trigger] forward_slashes(s)[i] == if s[i] == '\\' {
                '/'
            } else {
                s[i]
            },
{
}

/// Taking out the carriage returns in front of line feeds leaves everything else in its place.
pub proof fn law_unix_lines_keep_the_rest(c: char, rest: Seq<char>)
    ensures
        unix_lines(Seq::<char>::empty()) == Seq::<char>::empty(),
        unix_lines(seq!['\r', '\n'] + rest) == seq!['\n'] + unix_lines(rest),
        c != '\r' || rest.len() == 0 || rest[0] != '\n' ==> unix_lines(seq![c] + rest) == seq![c]
            + unix_lines(rest),
{
    assert((seq!['\r', '\n'] + rest).skip(2) == rest);
    assert((seq![c] + rest).skip(1) == rest);
}

/// A text is split at the first place where the separator stands: the two halves with the separator
/// between them are the text, and there is no half where there is no separator.
pub proof fn law_splitting_is_undone_by_joining(s: Seq<char>, separator: Seq<char>)
    ensures
        match split_at_first(s, separator) {
            Some((front, back)) => {
                &&& s == front + separator + back
                &&& forall|i: int, j: int|
                    0 <= i < front.len() && j == i + separator.len() && j <= s.len()
                        ==> #[trigger] s.subrange(i, j) != separator
            },
            None => forall|i: int, j: int|
                0 <= i && j == i + separator.len() && j <= s.len() ==> #[trigger] s.subrange(i, j)
                    != separator,
        },
{
    lemma_find_from(s, separator, 0);
    match split_at_first(s, separator) {
        Some((front, back)) => {
            let at = front.len() as int;
            assert(s.subrange(at, at + separator.len()) == separator);
            assert(s == front + s.subrange(at, at + separator.len()) + back);
            assert forall|i: int, j: int|
                0 <= i < at && j == i + separator.len() && j <= s.len() implies #[trigger] s.subrange(
                i,
                j,
            ) != separator by {
                assert(!occurs_at(s, separator, i));
            }
        },
        None => {
            assert forall|i: int, j: int|
                0 <= i && j == i + separator.len() && j <= s.len() implies #[trigger] s.subrange(
                i,
                j,
            ) != separator by {
                assert(!occurs_at(s, separator, i));
            }
        },
    }
}

/// A prefix is taken off exactly where the text starts with it, once or, where asked for, as often as
/// it stands there.
pub proof fn law_prefixes_are_taken_off(s: Seq<char>, prefix: Seq<char>)
    ensures
        strip_prefix(prefix + s, prefix) == Some(s),
        strip_prefix(s, prefix) matches Some(rest) ==> s == prefix + rest,
        prefix.len() > 0 ==> trim_prefix(prefix + s, prefix) == trim_prefix(s, prefix),
        !prefix.is_prefix_of(s) ==> strip_prefix(s, prefix) is None && trim_prefix(s, prefix) == s,
{
    assert((prefix + s).subrange(0, prefix.len() as int) == prefix);
    assert((prefix + s).skip(prefix.len() as int) == s);
    if has_prefix(s, prefix) {
        assert(s == s.subrange(0, prefix.len() as int) + s.skip(prefix.len() as int));
        assert(s.take(prefix.len() as int) == s.subrange(0, prefix.len() as int));
    }
}

/// Texts are ordered as in a dictionary: by the first character in which they differ, and a text
/// before every longer one that starts with it.
pub proof fn law_texts_are_ordered_as_in_a_dictionary(
    common: Seq<char>,
    a: Seq<char>,
    b: Seq<char>,
)
    ensures
        text_lt(common + a, common + b) == text_lt(a, b),
        a.len() > 0 && b.len() > 0 && a[0] != b[0] ==> text_lt(a, b) == (a[0] < b[0]),
        text_lt(common, common + a) == (a.len() > 0),
        !text_lt(common + a, common),
    decreases common.len(),
{
    if common.len() > 0 {
        let shorter = common.drop_first();
        law_texts_are_ordered_as_in_a_dictionary(shorter, a, b);
        assert((common + a).drop_first() == shorter + a);
        assert((common + b).drop_first() == shorter + b);
    } else {
        assert(common + a == a);
        assert(common + b == b);
    }
}

/// An identifier is plain exactly where it is not empty and each of its characters is a letter or
/// digit of ASCII, a dash or an underscore.
pub proof fn law_plain_ids_are_plain(s: Seq<char>)
    ensures
        is_plain_id(s) <==> s.len() > 0 && forall|i: int|
            0 <= i < s.len() ==> {
                let c = #[trigger] s[i];
                'a' <= c <= 'z' || 'A' <= c <= 'Z' || '0' <= c <= '9' || c == '-' || c == '_'
            },
{
}

/// Texts without a dash that are joined by one can be told apart again.
pub proof fn law_dashes_tell_parts_apart(
    a: Seq<char>,
    b: Seq<char>,
    c: Seq<char>,
    d: Seq<char>,
)
    requires
        !a.contains('-'),
        !c.contains('-'),
        a + "-"@ + b == c + "-"@ + d,
    ensures
        a == c,
        b == d,
{
    reveal_strlit("-");
    let left = a + "-"@ + b;
    let right = c + "-"@ + d;
    assert(left[a.len() as int] == '-');
    assert(right[c.len() as int] == '-');
    if a.len() < c.len() {
        assert(right[a.len() as int] == c[a.len() as int]);
        assert(c.contains(c[a.len() as int]));
    }
    if c.len() < a.len() {
        assert(left[c.len() as int] == a[c.len() as int]);
        assert(a.contains(a[c.len() as int]));
    }
    assert(a == left.take(a.len() as int));
    assert(c == right.take(c.len() as int));
    assert(b == left.skip(a.len() as int + 1));
    assert(d == right.skip(c.len() as int + 1));
}

/// A number in decimal holds no dash.
pub proof fn lemma_decimal_has_no_dash(number: nat)
    ensures
        !decimal_text(number).contains('-'),
{
    law_decimals_read_back(number);
}

/// White space is what Unicode counts as such, by its number.
pub proof fn law_white_space_is_that_of_unicode(c: char)
    ensures
        is_white_space(c) <==> {
            ||| 9 <= c as u32 <= 13
            ||| c as u32 == 32
            ||| c as u32 == 0x85
            ||| c as u32 == 0xA0
            ||| c as u32 == 0x1680
            ||| 0x2000 <= c as u32 <= 0x200A
            ||| 0x2028 <= c as u32 <= 0x2029
            ||| c as u32 == 0x202F
            ||| c as u32 == 0x205F
            ||| c as u32 == 0x3000
        },
{
}

} // verus!
