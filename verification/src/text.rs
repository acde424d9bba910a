//! Text as sequences of characters: what searching, trimming, replacing, splitting and joining
//! mean, and functions that do it.

use vstd::prelude::*;
use vstd::utf8::{char_is_scalar, encode_utf8};
use crate::chars::{ascii_small, char_ascii_small, char_in_class, char_is_space, char_width, in_class, is_space, width, CharClass};

verus! {

// ---------------------------------------------------------------------------------------------
// What the operations mean
// ---------------------------------------------------------------------------------------------

/// How many characters at the front of `s` belong to the class `k`.
pub open spec fn lead(s: Seq<char>, k: CharClass) -> nat
    decreases s.len(),
{
    if s.len() > 0 && in_class(k, s[0]) {
        1 + lead(s.skip(1), k)
    } else {
        0
    }
}

/// How many characters at the end of `s` belong to the class `k`.
pub open spec fn trail(s: Seq<char>, k: CharClass) -> nat
    decreases s.len(),
{
    if s.len() > 0 && in_class(k, s.last()) {
        1 + trail(s.drop_last(), k)
    } else {
        0
    }
}

/// `s` without the characters of class `k` at its front.
pub open spec fn trimmed_start(s: Seq<char>, k: CharClass) -> Seq<char> {
    s.skip(lead(s, k) as int)
}

/// `s` without the characters of class `k` at its end.
pub open spec fn trimmed_end(s: Seq<char>, k: CharClass) -> Seq<char> {
    s.take(s.len() - trail(s, k))
}

/// `s` without the characters of class `k` at either end.
pub open spec fn trimmed_by(s: Seq<char>, k: CharClass) -> Seq<char> {
    trimmed_end(trimmed_start(s, k), k)
}

/// `s` without the white space at either end.
pub open spec fn trimmed(s: Seq<char>) -> Seq<char> {
    trimmed_by(s, CharClass::Space)
}

/// Nothing but white space.
pub open spec fn blank(s: Seq<char>) -> bool {
    trimmed(s).len() == 0
}

/// `pat` stands in `s` at the position `i`.
pub open spec fn occurs_at(s: Seq<char>, pat: Seq<char>, i: int) -> bool {
    &&& 0 <= i
    &&& i + pat.len() <= s.len()
    &&& s.subrange(i, i + pat.len()) == pat
}

/// `pat` stands somewhere in `s`.
pub open spec fn holds(s: Seq<char>, pat: Seq<char>) -> bool {
    exists|i: int| occurs_at(s, pat, i)
}

/// The first position, not before `from`, at which `pat` stands in `s`.
pub open spec fn find_from(s: Seq<char>, pat: Seq<char>, from: int) -> Option<int>
    decreases s.len() - from + 1,
{
    if from < 0 || from + pat.len() > s.len() {
        None
    } else if occurs_at(s, pat, from) {
        Some(from)
    } else {
        find_from(s, pat, from + 1)
    }
}

/// The first position at which `pat` stands in `s`.
pub open spec fn first_at(s: Seq<char>, pat: Seq<char>) -> Option<int> {
    find_from(s, pat, 0)
}

/// The last position, not behind `from`, at which `pat` stands in `s`.
pub open spec fn rfind_from(s: Seq<char>, pat: Seq<char>, from: int) -> Option<int>
    decreases from + 1,
{
    if from < 0 {
        None
    } else if occurs_at(s, pat, from) {
        Some(from)
    } else {
        rfind_from(s, pat, from - 1)
    }
}

/// The last position at which `pat` stands in `s`.
pub open spec fn last_at(s: Seq<char>, pat: Seq<char>) -> Option<int> {
    rfind_from(s, pat, s.len() - pat.len())
}

/// `s` begins with `pat`.
pub open spec fn begins(s: Seq<char>, pat: Seq<char>) -> bool {
    occurs_at(s, pat, 0)
}

/// `s` ends with `pat`.
pub open spec fn ends(s: Seq<char>, pat: Seq<char>) -> bool {
    occurs_at(s, pat, s.len() - pat.len())
}

/// How often `pat` stands in `s`, counted from the front without overlap.
pub open spec fn count_of(s: Seq<char>, pat: Seq<char>) -> nat
    decreases s.len(),
{
    if pat.len() == 0 || s.len() < pat.len() {
        0
    } else if begins(s, pat) {
        1 + count_of(s.skip(pat.len() as int), pat)
    } else {
        count_of(s.skip(1), pat)
    }
}

/// `s` with every `pat` in it, taken from the front without overlap, replaced by `with`.
pub open spec fn replaced(s: Seq<char>, pat: Seq<char>, with: Seq<char>) -> Seq<char>
    decreases s.len(),
{
    if pat.len() == 0 || s.len() < pat.len() {
        s
    } else if begins(s, pat) {
        with + replaced(s.skip(pat.len() as int), pat, with)
    } else {
        seq![s[0]] + replaced(s.skip(1), pat, with)
    }
}

/// `s` with every `c` in it replaced by `with`.
pub open spec fn char_replaced(s: Seq<char>, c: char, with: Seq<char>) -> Seq<char>
    decreases s.len(),
{
    if s.len() == 0 {
        s
    } else {
        char_replaced(s.drop_last(), c, with) + if s.last() == c {
            with
        } else {
            seq![s.last()]
        }
    }
}

/// How many characters at the front of `s` are no white space.
pub open spec fn word_len(s: Seq<char>) -> nat
    decreases s.len(),
{
    if s.len() > 0 && !is_space(s[0]) {
        1 + word_len(s.skip(1))
    } else {
        0
    }
}

/// The words of `s`: its longest parts without white space, in order.
pub open spec fn words(s: Seq<char>) -> Seq<Seq<char>>
    decreases s.len(),
{
    if s.len() == 0 {
        Seq::empty()
    } else if is_space(s[0]) {
        words(s.skip(1))
    } else {
        proof {
            lemma_word_len_bound(s);
        }
        seq![s.take(word_len(s) as int)] + words(s.skip(word_len(s) as int))
    }
}

/// `parts` with `sep` between each two of them.
pub open spec fn joined(parts: Seq<Seq<char>>, sep: Seq<char>) -> Seq<char>
    decreases parts.len(),
{
    if parts.len() == 0 {
        Seq::empty()
    } else if parts.len() == 1 {
        parts[0]
    } else {
        joined(parts.drop_last(), sep) + sep + parts.last()
    }
}

/// What stands in `s` between the first `pat` and the second, or the end of `s`.
pub open spec fn second_piece(s: Seq<char>, pat: Seq<char>) -> Option<Seq<char>> {
    match first_at(s, pat) {
        None => None,
        Some(i) => {
            let rest = s.skip(i + pat.len());
            match first_at(rest, pat) {
                None => Some(rest),
                Some(j) => Some(rest.take(j)),
            }
        },
    }
}

/// The number of bytes that `s` takes in UTF-8.
pub open spec fn byte_len(s: Seq<char>) -> nat
    decreases s.len(),
{
    if s.len() == 0 {
        0
    } else {
        width(s[0]) + byte_len(s.skip(1))
    }
}

/// How many characters of `s` make up its first `b` bytes, where a character ends there.
pub open spec fn char_at_byte(s: Seq<char>, b: int) -> Option<int>
    decreases s.len(),
{
    if b == 0 {
        Some(0)
    } else if s.len() == 0 || b < width(s[0]) {
        None
    } else {
        match char_at_byte(s.skip(1), b - width(s[0])) {
            None => None,
            Some(i) => Some(i + 1),
        }
    }
}

/// `s` with ASCII capitals turned into small letters.
pub open spec fn ascii_lower(s: Seq<char>) -> Seq<char> {
    s.map_values(|c: char| ascii_small(c))
}

/// Nothing but ASCII characters.
pub open spec fn all_ascii(s: Seq<char>) -> bool {
    forall|i: int| 0 <= i < s.len() ==> (#[trigger] s[i] as u32) < 0x80
}

/// The texts of a list of strings.
pub open spec fn texts(v: Seq<String>) -> Seq<Seq<char>> {
    v.map_values(|s: String| s@)
}

/// The texts of a list of string slices.
pub open spec fn str_texts(v: Seq<&str>) -> Seq<Seq<char>> {
    v.map_values(|s: &str| s@)
}

/// The first characters of `s`, at most `n`.
pub open spec fn first_chars(s: Seq<char>, n: int) -> Seq<char> {
    if s.len() <= n {
        s
    } else {
        s.take(n)
    }
}

/// A line without the carriage return that ends it.
pub open spec fn without_return(line: Seq<char>) -> Seq<char> {
    if line.len() > 0 && line.last() == '\r' {
        line.drop_last()
    } else {
        line
    }
}

/// The lines of `s`. A line ends at a line feed, with or without a carriage return before it, or
/// at the end of `s`.
pub open spec fn lines(s: Seq<char>) -> Seq<Seq<char>>
    decreases s.len(),
{
    if s.len() == 0 {
        Seq::empty()
    } else {
        proof {
            reveal_strlit("\n");
            lemma_first_at(s, "\n"@);
        }
        match first_at(s, "\n"@) {
            None => seq![s],
            Some(i) => seq![without_return(s.take(i))] + lines(s.skip(i + 1)),
        }
    }
}

/// The text of an optional string.
pub open spec fn opt_text(o: Option<String>) -> Option<Seq<char>> {
    match o {
        Some(s) => Some(s@),
        None => None,
    }
}

/// The text of an optional string slice.
pub open spec fn opt_str(o: Option<&str>) -> Option<Seq<char>> {
    match o {
        Some(s) => Some(s@),
        None => None,
    }
}

// ---------------------------------------------------------------------------------------------
// Facts
// ---------------------------------------------------------------------------------------------

pub proof fn lemma_lead_bound(s: Seq<char>, k: CharClass)
    ensures
        lead(s, k) <= s.len(),
    decreases s.len(),
{
    if s.len() > 0 && in_class(k, s[0]) {
        lemma_lead_bound(s.skip(1), k);
    }
}

pub proof fn lemma_trail_bound(s: Seq<char>, k: CharClass)
    ensures
        trail(s, k) <= s.len(),
    decreases s.len(),
{
    if s.len() > 0 && in_class(k, s.last()) {
        lemma_trail_bound(s.drop_last(), k);
    }
}

/// What is left of a text without the characters of a class at its ends is a part of it, and has
/// none of them at its ends.
pub proof fn lemma_trimmed_part(s: Seq<char>, k: CharClass)
    ensures
        ({
            let a = lead(s, k) as int;
            let b = a + trimmed_by(s, k).len();
            0 <= a <= b <= s.len() && trimmed_by(s, k) == s.subrange(a, b)
        }),
        trimmed_by(s, k).len() > 0 ==> !in_class(k, trimmed_by(s, k)[0]) && !in_class(
            k,
            trimmed_by(s, k).last(),
        ),
{
    lemma_lead_bound(s, k);
    lemma_lead_stops(s, k);
    let rest = trimmed_start(s, k);
    lemma_trail_bound(rest, k);
    lemma_trail_stops(rest, k);
    let a = lead(s, k) as int;
    let t = trimmed_by(s, k);
    assert(t =~= s.subrange(a, a + t.len()));
    if t.len() > 0 {
        assert(t[0] == s[a]);
        assert(t.last() == rest[rest.len() - trail(rest, k) - 1]);
    }
}

/// The characters at the front end where one comes that is of another class.
proof fn lemma_lead_stops(s: Seq<char>, k: CharClass)
    ensures
        lead(s, k) < s.len() ==> !in_class(k, s[lead(s, k) as int]),
    decreases s.len(),
{
    if s.len() > 0 && in_class(k, s[0]) {
        lemma_lead_stops(s.skip(1), k);
    }
}

/// The characters at the end begin behind one that is of another class.
proof fn lemma_trail_stops(s: Seq<char>, k: CharClass)
    ensures
        trail(s, k) < s.len() ==> !in_class(k, s[s.len() - trail(s, k) - 1]),
    decreases s.len(),
{
    if s.len() > 0 && in_class(k, s.last()) {
        lemma_trail_stops(s.drop_last(), k);
    }
}

/// A text without characters of a class at its ends is left alone.
pub proof fn lemma_trimmed_bare(s: Seq<char>, k: CharClass)
    requires
        s.len() > 0 ==> !in_class(k, s[0]) && !in_class(k, s.last()),
    ensures
        trimmed_by(s, k) == s,
{
    assert(lead(s, k) == 0);
    assert(s.skip(0) =~= s);
    assert(trail(s, k) == 0);
    assert(s.take(s.len() as int) =~= s);
}

/// All characters of a text are of the given kind.
pub open spec fn only(s: Seq<char>, p: spec_fn(char) -> bool) -> bool {
    forall|i: int| 0 <= i < s.len() ==> p(#[trigger] s[i])
}

/// A character that is replaced is gone; what is left stood there or comes from the replacement.
pub proof fn lemma_char_replaced_only(
    s: Seq<char>,
    c: char,
    with: Seq<char>,
    p: spec_fn(char) -> bool,
    q: spec_fn(char) -> bool,
)
    requires
        only(s, p),
        only(with, q),
        forall|x: char| x != c && #[trigger] p(x) ==> q(x),
    ensures
        only(char_replaced(s, c, with), q),
    decreases s.len(),
{
    if s.len() > 0 {
        let rest = s.drop_last();
        assert forall|i: int| 0 <= i < rest.len() implies p(#[trigger] rest[i]) by {
            assert(rest[i] == s[i]);
        }
        lemma_char_replaced_only(rest, c, with, p, q);
        assert(p(s[s.len() - 1]));
        let front = char_replaced(rest, c, with);
        let last = if s.last() == c {
            with
        } else {
            seq![s.last()]
        };
        assert(only(last, q));
        assert forall|i: int| 0 <= i < (front + last).len() implies q(
            #[trigger] (front + last)[i],
        ) by {
            if i < front.len() {
                assert((front + last)[i] == front[i]);
            } else {
                assert((front + last)[i] == last[i - front.len()]);
            }
        }
    }
}

/// A text without a character is left alone where that character is replaced.
pub proof fn lemma_char_replaced_none(s: Seq<char>, c: char, with: Seq<char>)
    requires
        only(s, |x: char| x != c),
    ensures
        char_replaced(s, c, with) == s,
    decreases s.len(),
{
    if s.len() > 0 {
        let p = |x: char| x != c;
        let rest = s.drop_last();
        assert forall|i: int| 0 <= i < rest.len() implies p(#[trigger] rest[i]) by {
            assert(rest[i] == s[i]);
        }
        lemma_char_replaced_none(rest, c, with);
        assert(p(s[s.len() - 1]));
        assert(rest + seq![s.last()] =~= s);
    }
}

/// A word: characters without white space among them, at least one.
pub open spec fn is_word(w: Seq<char>) -> bool {
    w.len() > 0 && forall|i: int| 0 <= i < w.len() ==> !is_space(#[trigger] w[i])
}

/// The characters in front of the first white space are none.
proof fn lemma_word_len(s: Seq<char>)
    ensures
        word_len(s) <= s.len(),
        forall|i: int| 0 <= i < word_len(s) ==> !is_space(#[trigger] s[i]),
        word_len(s) < s.len() ==> is_space(s[word_len(s) as int]),
    decreases s.len(),
{
    if s.len() > 0 && !is_space(s[0]) {
        lemma_word_len(s.skip(1));
        assert forall|i: int| 0 <= i < word_len(s) implies !is_space(#[trigger] s[i]) by {
            if i > 0 {
                assert(s.skip(1)[i - 1] == s[i]);
            }
        }
    }
}

/// How long the first word is.
proof fn lemma_word_len_is(s: Seq<char>, n: nat)
    requires
        n <= s.len(),
        forall|i: int| 0 <= i < n ==> !is_space(#[trigger] s[i]),
        n < s.len() ==> is_space(s[n as int]),
    ensures
        word_len(s) == n,
    decreases n,
{
    if n > 0 {
        assert(!is_space(s[0]));
        assert forall|i: int| 0 <= i < n - 1 implies !is_space(#[trigger] s.skip(1)[i]) by {
            assert(s.skip(1)[i] == s[i + 1]);
        }
        lemma_word_len_is(s.skip(1), (n - 1) as nat);
    }
}

/// The words of a text are words, made of its characters.
pub proof fn lemma_words(s: Seq<char>, p: spec_fn(char) -> bool)
    requires
        only(s, p),
    ensures
        forall|k: int|
            0 <= k < words(s).len() ==> is_word(#[trigger] words(s)[k]) && only(words(s)[k], p),
    decreases s.len(),
{
    if s.len() > 0 {
        if is_space(s[0]) {
            let rest = s.skip(1);
            assert forall|i: int| 0 <= i < rest.len() implies p(#[trigger] rest[i]) by {
                assert(rest[i] == s[i + 1]);
            }
            lemma_words(rest, p);
            assert(words(s) == words(rest));
        } else {
            lemma_word_len(s);
            let n = word_len(s) as int;
            let w = s.take(n);
            let rest = s.skip(n);
            assert forall|i: int| 0 <= i < rest.len() implies p(#[trigger] rest[i]) by {
                assert(rest[i] == s[i + n]);
            }
            lemma_words(rest, p);
            assert forall|i: int| 0 <= i < w.len() implies p(#[trigger] w[i]) && !is_space(
                w[i],
            ) by {
                assert(w[i] == s[i]);
            }
            assert(words(s) == seq![w] + words(rest));
            assert forall|k: int| 0 <= k < words(s).len() implies is_word(#[trigger] words(s)[k])
                && only(words(s)[k], p) by {
                if k > 0 {
                    assert(words(s)[k] == words(rest)[k - 1]);
                } else {
                    assert(words(s)[k] == w);
                }
            }
        }
    }
}

/// A word is its own only word.
proof fn lemma_one_word(w: Seq<char>)
    requires
        is_word(w),
    ensures
        words(w) == seq![w],
{
    lemma_word_len_is(w, w.len());
    assert(!is_space(w[0]));
    assert(w.take(w.len() as int) =~= w);
    let none = w.skip(w.len() as int);
    assert(words(none) =~= Seq::<Seq<char>>::empty());
    assert(words(w) == seq![w] + words(none));
    assert(seq![w] + words(none) =~= seq![w]);
}

/// A blank and a word behind a text make one more word.
proof fn lemma_words_push(s: Seq<char>, w: Seq<char>)
    requires
        is_word(w),
    ensures
        words(s + seq![' '] + w) == words(s).push(w),
    decreases s.len(),
{
    let all = s + seq![' '] + w;
    if s.len() == 0 {
        assert(all[0] == ' ');
        assert(all.skip(1) =~= w);
        lemma_one_word(w);
        assert(words(all) =~= words(s).push(w));
    } else if is_space(s[0]) {
        assert(all[0] == s[0]);
        assert(all.skip(1) =~= s.skip(1) + seq![' '] + w);
        lemma_words_push(s.skip(1), w);
    } else {
        lemma_word_len(s);
        let n = word_len(s) as int;
        assert(all[0] == s[0]);
        assert forall|i: int| 0 <= i < n implies !is_space(#[trigger] all[i]) by {
            assert(all[i] == s[i]);
        }
        if n < s.len() {
            assert(all[n] == s[n]);
        } else {
            assert(all[n] == ' ');
        }
        lemma_word_len_is(all, n as nat);
        assert(all.take(n) =~= s.take(n));
        assert(all.skip(n) =~= s.skip(n) + seq![' '] + w);
        lemma_words_push(s.skip(n), w);
        assert(words(all) =~= words(s).push(w));
    }
}

/// White space stands in a text only as single blanks between other characters.
pub open spec fn single_blanks(s: Seq<char>) -> bool {
    forall|i: int|
        0 <= i < s.len() && is_space(#[trigger] s[i]) ==> s[i] == ' ' && 0 < i < s.len() - 1
            && !is_space(s[i - 1]) && !is_space(s[i + 1])
}

/// Words joined by single blanks are found again, with nothing but single blanks between them.
pub proof fn lemma_joined_words(list: Seq<Seq<char>>, p: spec_fn(char) -> bool)
    requires
        forall|k: int| 0 <= k < list.len() ==> is_word(#[trigger] list[k]) && only(list[k], p),
        p(' '),
    ensures
        words(joined(list, " "@)) == list,
        only(joined(list, " "@), p),
        single_blanks(joined(list, " "@)),
        list.len() > 0 ==> joined(list, " "@).len() > 0 && !is_space(joined(list, " "@)[0])
            && !is_space(joined(list, " "@).last()),
    decreases list.len(),
{
    reveal_strlit(" ");
    assert(" "@ =~= seq![' ']);
    if list.len() == 1 {
        assert(is_word(list[0]));
        lemma_one_word(list[0]);
        assert(words(joined(list, " "@)) =~= list);
    } else if list.len() > 1 {
        let rest = list.drop_last();
        assert forall|k: int| 0 <= k < rest.len() implies is_word(#[trigger] rest[k]) && only(
            rest[k],
            p,
        ) by {
            assert(rest[k] == list[k]);
        }
        lemma_joined_words(rest, p);
        let front = joined(rest, " "@);
        let w = list.last();
        assert(is_word(list[list.len() - 1]));
        let all = front + seq![' '] + w;
        assert(joined(list, " "@) =~= all);
        lemma_words_push(front, w);
        assert(rest.push(w) =~= list);
        let n = front.len();
        assert forall|i: int| 0 <= i < all.len() implies p(#[trigger] all[i]) && (is_space(all[i])
            ==> all[i] == ' ' && 0 < i < all.len() - 1 && !is_space(all[i - 1]) && !is_space(
            all[i + 1],
        )) by {
            if i < n {
                assert(all[i] == front[i]);
                if is_space(front[i]) {
                    assert(all[i - 1] == front[i - 1]);
                    assert(all[i + 1] == front[i + 1]);
                }
            } else if i == n {
                assert(all[i - 1] == front.last());
                assert(all[i + 1] == w[0]);
            } else {
                assert(all[i] == w[i - n - 1]);
            }
        }
        assert(all[0] == front[0]);
        assert(all.last() == w.last());
        assert(!is_space(w[w.len() - 1]));
    } else {
        assert(words(joined(list, " "@)) =~= list);
    }
}

/// In ASCII every character takes one byte.
pub proof fn lemma_ascii_bytes(s: Seq<char>, i: int)
    requires
        all_ascii(s),
        0 <= i <= s.len(),
    ensures
        byte_len(s) == s.len(),
        char_at_byte(s, i) == Some(i),
    decreases s.len(),
{
    if s.len() > 0 {
        assert((s[0] as u32) < 0x80);
        assert forall|j: int| 0 <= j < s.skip(1).len() implies (#[trigger] s.skip(1)[j] as u32)
            < 0x80 by {
            assert(s.skip(1)[j] == s[j + 1]);
        }
        lemma_ascii_bytes(
            s.skip(1),
            if i > 0 {
                i - 1
            } else {
                0
            },
        );
    }
}

pub proof fn lemma_word_len_bound(s: Seq<char>)
    ensures
        word_len(s) <= s.len(),
    decreases s.len(),
{
    if s.len() > 0 && !is_space(s[0]) {
        lemma_word_len_bound(s.skip(1));
    }
}

/// A search from `from` finds the first occurrence there is, and finds one if there is any.
pub proof fn lemma_find_from(s: Seq<char>, pat: Seq<char>, from: int)
    requires
        0 <= from,
    ensures
        match find_from(s, pat, from) {
            Some(i) => from <= i && occurs_at(s, pat, i) && forall|j: int|
                from <= j < i ==> !occurs_at(s, pat, j),
            None => forall|j: int| from <= j ==> !occurs_at(s, pat, j),
        },
    decreases s.len() - from + 1,
{
    if from + pat.len() <= s.len() && !occurs_at(s, pat, from) {
        lemma_find_from(s, pat, from + 1);
    }
}

/// `pat` has a first position in `s` exactly if it stands in `s`.
pub proof fn lemma_first_at(s: Seq<char>, pat: Seq<char>)
    ensures
        match first_at(s, pat) {
            Some(i) => occurs_at(s, pat, i) && holds(s, pat) && forall|j: int|
                0 <= j < i ==> !occurs_at(s, pat, j),
            None => !holds(s, pat),
        },
{
    lemma_find_from(s, pat, 0);
}

/// A text that stands at a position, and nowhere before it, is found there.
pub proof fn lemma_found_first(s: Seq<char>, pat: Seq<char>, i: int)
    requires
        occurs_at(s, pat, i),
        forall|j: int| 0 <= j < i ==> !occurs_at(s, pat, j),
    ensures
        first_at(s, pat) == Some(i),
{
    lemma_first_at(s, pat);
}

/// What stands in the rest of a text stands in the text, so much later.
proof fn lemma_occurs_in_rest(s: Seq<char>, pat: Seq<char>, k: int, i: int)
    requires
        0 <= k <= s.len(),
        0 <= i,
    ensures
        occurs_at(s.skip(k), pat, i) == occurs_at(s, pat, i + k),
{
    if i + k + pat.len() <= s.len() {
        assert(s.skip(k).subrange(i, i + pat.len()) =~= s.subrange(i + k, i + k + pat.len()));
    }
}

/// A text that stands nowhere is counted not at all; one that stands somewhere is counted; one that
/// stands at a single place is counted once; and one that stands at two places that do not overlap
/// is counted at least twice.
pub proof fn counting_is_right(s: Seq<char>, pat: Seq<char>, i: int, j: int)
    requires
        pat.len() > 0,
    ensures
        !holds(s, pat) ==> count_of(s, pat) == 0,
        occurs_at(s, pat, i) ==> count_of(s, pat) >= 1,
        occurs_at(s, pat, i) && (forall|k: int| occurs_at(s, pat, k) ==> k == i) ==> count_of(s, pat)
            == 1,
        occurs_at(s, pat, i) && occurs_at(s, pat, j) && i + pat.len() <= j ==> count_of(s, pat) >= 2,
    decreases s.len(),
{
    let n = pat.len() as int;
    if s.len() >= n {
        if begins(s, pat) {
            let rest = s.skip(n);
            assert(occurs_at(s, pat, 0));
            assert forall|k: int| #[trigger] occurs_at(rest, pat, k) implies occurs_at(
                s,
                pat,
                k + n,
            ) by {
                lemma_occurs_in_rest(s, pat, n, k);
            }
            if j >= n {
                lemma_occurs_in_rest(s, pat, n, j - n);
            }
            counting_is_right(rest, pat, j - n, 0);
            if holds(rest, pat) {
                let k = choose|k: int| occurs_at(rest, pat, k);
                assert(occurs_at(s, pat, k + n));
            }
        } else {
            let rest = s.skip(1);
            assert forall|k: int| #[trigger] occurs_at(rest, pat, k) implies occurs_at(
                s,
                pat,
                k + 1,
            ) by {
                lemma_occurs_in_rest(s, pat, 1, k);
            }
            if i >= 1 {
                lemma_occurs_in_rest(s, pat, 1, i - 1);
            }
            if j >= 1 {
                lemma_occurs_in_rest(s, pat, 1, j - 1);
            }
            counting_is_right(rest, pat, i - 1, j - 1);
        }
    }
}

/// A backward search finds the last occurrence there is, and finds one if there is any.
proof fn lemma_rfind_from(s: Seq<char>, pat: Seq<char>, from: int)
    ensures
        match rfind_from(s, pat, from) {
            Some(i) => i <= from && occurs_at(s, pat, i) && forall|j: int|
                i < j <= from ==> !occurs_at(s, pat, j),
            None => forall|j: int| j <= from ==> !occurs_at(s, pat, j),
        },
    decreases from + 1,
{
    if from >= 0 && !occurs_at(s, pat, from) {
        lemma_rfind_from(s, pat, from - 1);
    }
}

/// `pat` has a last position in `s` exactly if it stands in `s`.
pub proof fn lemma_last_at(s: Seq<char>, pat: Seq<char>)
    ensures
        match last_at(s, pat) {
            Some(i) => occurs_at(s, pat, i) && forall|j: int| i < j ==> !occurs_at(s, pat, j),
            None => !holds(s, pat),
        },
{
    lemma_rfind_from(s, pat, s.len() - pat.len());
}

/// A text that stands at a position, and nowhere behind it, is found there from behind.
pub proof fn lemma_found_last(s: Seq<char>, pat: Seq<char>, i: int)
    requires
        occurs_at(s, pat, i),
        forall|j: int| i < j ==> !occurs_at(s, pat, j),
    ensures
        last_at(s, pat) == Some(i),
{
    lemma_last_at(s, pat);
}

/// Replacing a character by another one changes that character only, wherever it stands.
pub proof fn lemma_char_swapped(s: Seq<char>, c: char, with: Seq<char>)
    requires
        with.len() == 1,
    ensures
        char_replaced(s, c, with) == s.map_values(
            |x: char|
                if x == c {
                    with[0]
                } else {
                    x
                },
        ),
    decreases s.len(),
{
    let f = |x: char|
        if x == c {
            with[0]
        } else {
            x
        };
    if s.len() > 0 {
        lemma_char_swapped(s.drop_last(), c, with);
        assert(char_replaced(s, c, with) =~= s.map_values(f));
    } else {
        assert(char_replaced(s, c, with) =~= s.map_values(f));
    }
}

/// Characters of a class at the front are counted before what follows.
proof fn lemma_lead_behind(front: Seq<char>, rest: Seq<char>, k: CharClass)
    requires
        only(front, |c: char| in_class(k, c)),
    ensures
        lead(front + rest, k) == front.len() + lead(rest, k),
    decreases front.len(),
{
    let all = front + rest;
    if front.len() == 0 {
        assert(all =~= rest);
    } else {
        let p = |c: char| in_class(k, c);
        assert(p(front[0]));
        assert forall|i: int| 0 <= i < front.skip(1).len() implies p(#[trigger] front.skip(1)[i]) by {
            assert(p(front[i + 1]));
        }
        assert(all[0] == front[0]);
        assert(all.skip(1) =~= front.skip(1) + rest);
        lemma_lead_behind(front.skip(1), rest, k);
    }
}

/// Characters of a class at the end are counted behind what comes before.
proof fn lemma_trail_before(rest: Seq<char>, behind: Seq<char>, k: CharClass)
    requires
        only(behind, |c: char| in_class(k, c)),
    ensures
        trail(rest + behind, k) == behind.len() + trail(rest, k),
    decreases behind.len(),
{
    let all = rest + behind;
    if behind.len() == 0 {
        assert(all =~= rest);
    } else {
        let p = |c: char| in_class(k, c);
        let shorter = behind.drop_last();
        assert(p(behind[behind.len() - 1]));
        assert forall|i: int| 0 <= i < shorter.len() implies p(#[trigger] shorter[i]) by {
            assert(p(behind[i]));
        }
        assert(all.last() == behind.last());
        assert(all.drop_last() =~= rest + shorter);
        lemma_trail_before(rest, shorter, k);
    }
}

/// Trimming takes away what stands of a class around a text, all of it and nothing else; a text of
/// nothing else is trimmed to nothing.
pub proof fn only_the_edges_are_trimmed(
    front: Seq<char>,
    core: Seq<char>,
    behind: Seq<char>,
    k: CharClass,
)
    requires
        only(front, |c: char| in_class(k, c)),
        only(behind, |c: char| in_class(k, c)),
        core.len() > 0 ==> !in_class(k, core[0]) && !in_class(k, core.last()),
    ensures
        trimmed_by(front + core + behind, k) == core,
{
    let rest = core + behind;
    let all = front + core + behind;
    assert(all =~= front + rest);
    lemma_lead_behind(front, rest, k);
    if core.len() > 0 {
        assert(rest[0] == core[0]);
        assert(lead(rest, k) == 0);
        assert(trimmed_start(all, k) =~= rest);
        lemma_trail_before(core, behind, k);
        assert(trail(core, k) == 0);
        assert(trimmed_end(rest, k) =~= core);
    } else {
        assert(rest =~= behind + Seq::<char>::empty());
        lemma_lead_behind(behind, Seq::empty(), k);
        assert(trimmed_start(all, k) =~= Seq::<char>::empty());
        assert(trimmed_by(all, k) =~= core);
    }
}

/// What is trimmed is of the class.
proof fn lemma_cut_away(s: Seq<char>, k: CharClass)
    ensures
        forall|i: int| 0 <= i < lead(s, k) ==> in_class(k, #[trigger] s[i]),
        forall|i: int| s.len() - trail(s, k) <= i < s.len() ==> in_class(k, #[trigger] s[i]),
    decreases s.len(),
{
    if s.len() > 0 {
        let rest = s.skip(1);
        let shorter = s.drop_last();
        lemma_lead_bound(s, k);
        lemma_lead_bound(rest, k);
        lemma_trail_bound(s, k);
        lemma_trail_bound(shorter, k);
        lemma_cut_away(rest, k);
        lemma_cut_away(shorter, k);
        assert forall|i: int| 0 <= i < lead(s, k) implies in_class(k, #[trigger] s[i]) by {
            if i > 0 {
                assert(rest[i - 1] == s[i]);
                assert(in_class(k, rest[i - 1]));
            }
        }
        assert forall|i: int| s.len() - trail(s, k) <= i < s.len() implies in_class(
            k,
            #[trigger] s[i],
        ) by {
            if i < s.len() - 1 {
                assert(shorter[i] == s[i]);
                assert(in_class(k, shorter[i]));
            }
        }
    }
}

/// A text with a character of another class in it is not trimmed to nothing, and not beyond that
/// character.
pub proof fn lemma_not_trimmed_away(s: Seq<char>, k: CharClass, j: int)
    requires
        0 <= j < s.len(),
        !in_class(k, s[j]),
    ensures
        lead(s, k) <= j < lead(s, k) + trimmed_by(s, k).len(),
{
    lemma_cut_away(s, k);
    lemma_lead_bound(s, k);
    let rest = trimmed_start(s, k);
    let n = lead(s, k) as int;
    assert(rest[j - n] == s[j]);
    lemma_cut_away(rest, k);
    lemma_trail_bound(rest, k);
}

/// Replacing a character in two texts is replacing it in both of them together.
pub proof fn lemma_char_replaced_add(a: Seq<char>, b: Seq<char>, c: char, with: Seq<char>)
    ensures
        char_replaced(a + b, c, with) == char_replaced(a, c, with) + char_replaced(b, c, with),
    decreases b.len(),
{
    if b.len() == 0 {
        assert(a + b =~= a);
        assert(char_replaced(a, c, with) + char_replaced(b, c, with) =~= char_replaced(a, c, with));
    } else {
        assert((a + b).drop_last() =~= a + b.drop_last());
        lemma_char_replaced_add(a, b.drop_last(), c, with);
        assert(char_replaced(a + b, c, with) =~= char_replaced(a, c, with) + char_replaced(
            b,
            c,
            with,
        ));
    }
}

/// The lines of a text: a line feed, with or without a carriage return before it, ends the first
/// one, and the others are those of the rest; without any, the text is its only line.
pub proof fn lines_are_told_apart(line: Seq<char>, rest: Seq<char>)
    requires
        !line.contains('\n'),
    ensures
        line.len() == 0 || line.last() != '\r' ==> lines(line + "\n"@ + rest) == seq![line] + lines(
            rest,
        ),
        lines(line + "\r\n"@ + rest) == seq![line] + lines(rest),
        line.len() > 0 ==> lines(line) == seq![line],
        lines(Seq::<char>::empty()).len() == 0,
{
    reveal_strlit("\n");
    reveal_strlit("\r\n");
    lemma_first_line(line, rest);
    let longer = line.push('\r');
    assert forall|i: int| 0 <= i < longer.len() implies #[trigger] longer[i] != '\n' by {
        if i < line.len() {
            assert(line.contains(line[i]));
        }
    }
    lemma_first_line(longer, rest);
    assert(longer + "\n"@ + rest =~= line + "\r\n"@ + rest);
    assert(longer.drop_last() =~= line);
    lemma_first_at(line, "\n"@);
    match first_at(line, "\n"@) {
        Some(i) => {
            assert(line.subrange(i, i + 1)[0] == '\n');
            assert(line.contains(line[i]));
        },
        None => {},
    }
}

/// The first line of a text ends at its first line feed.
proof fn lemma_first_line(line: Seq<char>, rest: Seq<char>)
    requires
        !line.contains('\n'),
    ensures
        lines(line + "\n"@ + rest) == seq![without_return(line)] + lines(rest),
{
    reveal_strlit("\n");
    let all = line + "\n"@ + rest;
    let n = line.len() as int;
    assert(all.subrange(n, n + 1) =~= "\n"@);
    assert forall|j: int| 0 <= j < n implies !occurs_at(all, "\n"@, j) by {
        if occurs_at(all, "\n"@, j) {
            assert(all.subrange(j, j + 1)[0] == '\n');
            assert(line.contains(line[j]));
        }
    }
    lemma_found_first(all, "\n"@, n);
    assert(all.take(n) =~= line);
    assert(all.skip(n + 1) =~= rest);
}

/// Where every occurrence is replaced, the first one is, and then those behind it; a text in which
/// there is none is left alone.
pub proof fn every_place_is_replaced(front: Seq<char>, pat: Seq<char>, behind: Seq<char>, with: Seq<char>)
    requires
        pat.len() > 0,
        forall|j: int| 0 <= j < front.len() ==> !occurs_at(front + pat + behind, pat, j),
    ensures
        replaced(front + pat + behind, pat, with) == front + with + replaced(behind, pat, with),
        !holds(behind, pat) ==> replaced(behind, pat, with) == behind,
    decreases front.len(),
{
    let all = front + pat + behind;
    if !holds(behind, pat) {
        lemma_nothing_replaced(behind, pat, with);
    }
    if front.len() == 0 {
        assert(all.subrange(0, pat.len() as int) =~= pat);
        assert(all.skip(pat.len() as int) =~= behind);
        assert(front + with + replaced(behind, pat, with) =~= with + replaced(behind, pat, with));
    } else {
        let rest = front.skip(1);
        assert(!occurs_at(all, pat, 0));
        assert(all.skip(1) =~= rest + pat + behind);
        assert forall|j: int| 0 <= j < rest.len() implies !occurs_at(rest + pat + behind, pat, j) by {
            lemma_occurs_in_rest(all, pat, 1, j);
            assert(!occurs_at(all, pat, j + 1));
        }
        every_place_is_replaced(rest, pat, behind, with);
        assert(all[0] == front[0]);
        assert(seq![all[0]] + (rest + with + replaced(behind, pat, with)) =~= front + with + replaced(
            behind,
            pat,
            with,
        ));
    }
}

/// Where a text does not stand, it is not replaced.
proof fn lemma_nothing_replaced(s: Seq<char>, pat: Seq<char>, with: Seq<char>)
    requires
        pat.len() > 0,
        !holds(s, pat),
    ensures
        replaced(s, pat, with) == s,
    decreases s.len(),
{
    if s.len() >= pat.len() {
        assert(!occurs_at(s, pat, 0));
        let rest = s.skip(1);
        assert forall|j: int| !occurs_at(rest, pat, j) by {
            if j >= 0 {
                lemma_occurs_in_rest(s, pat, 1, j);
                assert(!occurs_at(s, pat, j + 1));
            }
        }
        lemma_nothing_replaced(rest, pat, with);
        assert(seq![s[0]] + rest =~= s);
    }
}

/// What stands behind a phrase that a text holds once is all that follows it.
pub proof fn what_follows_a_phrase(front: Seq<char>, pat: Seq<char>, rest: Seq<char>)
    requires
        forall|j: int| 0 <= j < front.len() ==> !occurs_at(front + pat + rest, pat, j),
        !holds(rest, pat),
    ensures
        second_piece(front + pat + rest, pat) == Some(rest),
{
    let all = front + pat + rest;
    let n = front.len() as int;
    assert(all.subrange(n, n + pat.len()) =~= pat);
    lemma_found_first(all, pat, n);
    assert(all.skip(n + pat.len()) =~= rest);
    lemma_first_at(rest, pat);
}

/// Texts one behind the other take as many bytes as both.
pub proof fn lemma_byte_len_add(a: Seq<char>, b: Seq<char>)
    ensures
        byte_len(a + b) == byte_len(a) + byte_len(b),
    decreases a.len(),
{
    if a.len() == 0 {
        assert(a + b =~= b);
    } else {
        assert((a + b)[0] == a[0]);
        assert((a + b).skip(1) =~= a.skip(1) + b);
        lemma_byte_len_add(a.skip(1), b);
    }
}

/// A line feed around a text makes no difference where white space is trimmed.
pub proof fn lemma_trim_line_feeds(s: Seq<char>)
    ensures
        trimmed("\n"@ + s + "\n"@) == trimmed(s),
{
    reveal_strlit("\n");
    let k = CharClass::Space;
    let tail = s + "\n"@;
    let all = "\n"@ + s + "\n"@;
    assert(all.skip(1) =~= tail);
    assert(lead(all, k) == 1 + lead(tail, k));
    lemma_lead_bound(tail, k);
    lemma_lead_bound(s, k);
    assert(trimmed_start(all, k) =~= trimmed_start(tail, k));
    lemma_lead_of_longer(s);
    let a = trimmed_start(s, k);
    if lead(s, k) == s.len() {
        assert(trimmed_start(tail, k) =~= Seq::<char>::empty());
        assert(a =~= Seq::<char>::empty());
    } else {
        assert(trimmed_start(tail, k) =~= a + "\n"@);
        assert((a + "\n"@).drop_last() =~= a);
        assert((a + "\n"@).last() == '\n');
        assert(trail(a + "\n"@, k) == 1 + trail(a, k));
        lemma_trail_bound(a, k);
        assert(trimmed_end(a + "\n"@, k) =~= trimmed_end(a, k));
    }
}

/// The white space at the front of a text that a line feed was added to.
proof fn lemma_lead_of_longer(s: Seq<char>)
    ensures
        lead(s + "\n"@, CharClass::Space) == if lead(s, CharClass::Space) == s.len() {
            (s.len() + 1) as nat
        } else {
            lead(s, CharClass::Space)
        },
    decreases s.len(),
{
    reveal_strlit("\n");
    let k = CharClass::Space;
    let t = s + "\n"@;
    if s.len() == 0 {
        assert(t.skip(1) =~= Seq::<char>::empty());
        assert(lead(t.skip(1), k) == 0);
    } else if in_class(k, s[0]) {
        lemma_lead_of_longer(s.skip(1));
        assert(t.skip(1) =~= s.skip(1) + "\n"@);
        assert(t[0] == s[0]);
        lemma_lead_bound(s.skip(1), k);
    } else {
        assert(t[0] == s[0]);
    }
}

pub proof fn lemma_char_at_byte(s: Seq<char>, b: int)
    ensures
        match char_at_byte(s, b) {
            Some(i) => 0 <= i <= s.len() && byte_len(s.take(i)) == b,
            None => forall|i: int| 0 <= i <= s.len() ==> byte_len(#[trigger] s.take(i)) != b,
        },
    decreases s.len(),
{
    if b == 0 {
        assert(s.take(0) == Seq::<char>::empty());
    } else {
        if s.len() > 0 {
            lemma_char_at_byte(s.skip(1), b - width(s[0]));
        }
        assert forall|i: int| 0 < i <= s.len() implies byte_len(#[trigger] s.take(i)) == width(s[0])
            + byte_len(s.skip(1).take(i - 1)) by {
            assert(s.take(i).skip(1) == s.skip(1).take(i - 1));
        }
        assert(s.take(0) == Seq::<char>::empty());
    }
}

/// `byte_len` is the length of the UTF-8 encoding.
pub proof fn lemma_byte_len_encoding(s: Seq<char>)
    ensures
        byte_len(s) == encode_utf8(s).len(),
    decreases s.len(),
{
    if s.len() > 0 {
        char_is_scalar(s[0]);
        lemma_byte_len_encoding(s.drop_first());
    }
}

// ---------------------------------------------------------------------------------------------
// Functions
// ---------------------------------------------------------------------------------------------

/// `String::push` appends the given character to the end of the string.
pub assume_specification[ String::push ](s: &mut String, c: char)
    ensures
        final(s)@ == old(s)@.push(c),
;

/// The characters of `s`, in order.
pub fn chars_of(s: &str) -> (r: Vec<char>)
    ensures
        r@ == s@,
{
    let mut out: Vec<char> = Vec::new();
    for c in it: s.chars()
        invariant
            out@ == s@.take(it.index()),
            it.seq() == s@,
    {
        out.push(c);
        assert(s@.take(it.index() + 1) == s@.take(it.index()).push(c));
    }
    assert(s@.take(s@.len() as int) == s@);
    out
}

/// The text made of the characters of `v` from `from` up to `to`.
pub fn string_of(v: &Vec<char>, from: usize, to: usize) -> (r: String)
    requires
        from <= to <= v@.len(),
    ensures
        r@ == v@.subrange(from as int, to as int),
{
    let mut out: String = String::new();
    let mut i: usize = from;
    while i < to
        invariant
            from <= i <= to <= v@.len(),
            out@ == v@.subrange(from as int, i as int),
        decreases to - i,
    {
        out.push(v[i]);
        assert(v@.subrange(from as int, i + 1) == v@.subrange(from as int, i as int).push(v@[i as int]));
        i += 1;
    }
    out
}

/// Whether two texts are the same.
pub fn text_is(a: &str, b: &str) -> (r: bool)
    ensures
        r == (a@ == b@),
{
    a.to_owned() == b.to_owned()
}

/// `s` without the characters of class `k` at its front.
pub fn trim_start_by(s: &str, k: CharClass) -> (r: &str)
    ensures
        r@ == trimmed_start(s@, k),
{
    let v = chars_of(s);
    let n: usize = v.len();
    let mut i: usize = 0;
    assert(v@.skip(0) == v@);
    while i < n && char_in_class(k, v[i])
        invariant
            i <= n == v@.len(),
            lead(v@, k) == i + lead(v@.skip(i as int), k),
        decreases n - i,
    {
        assert(v@.skip(i as int).skip(1) == v@.skip(i + 1));
        i += 1;
    }
    assert(s@.subrange(i as int, n as int) == s@.skip(i as int));
    s.substring_char(i, n)
}

/// `s` without the characters of class `k` at its end.
pub fn trim_end_by(s: &str, k: CharClass) -> (r: &str)
    ensures
        r@ == trimmed_end(s@, k),
{
    let v = chars_of(s);
    let n: usize = v.len();
    let mut j: usize = n;
    assert(v@.take(n as int) == v@);
    while j > 0 && char_in_class(k, v[j - 1])
        invariant
            j <= n == v@.len(),
            trail(v@, k) == (n - j) + trail(v@.take(j as int), k),
        decreases j,
    {
        assert(v@.take(j as int).drop_last() == v@.take(j - 1));
        j -= 1;
    }
    assert(s@.subrange(0, j as int) == s@.take(j as int));
    s.substring_char(0, j)
}

/// `s` without the characters of class `k` at either end.
pub fn trim_by(s: &str, k: CharClass) -> (r: &str)
    ensures
        r@ == trimmed_by(s@, k),
{
    trim_end_by(trim_start_by(s, k), k)
}

/// `s` without the white space at either end.
pub fn trim(s: &str) -> (r: &str)
    ensures
        r@ == trimmed(s@),
{
    trim_by(s, CharClass::Space)
}

/// Nothing but white space.
pub fn is_blank(s: &str) -> (r: bool)
    ensures
        r == blank(s@),
{
    trim(s).is_empty()
}

/// Whether `pat` stands in `v` at the position `i`.
fn occurs(v: &Vec<char>, pat: &Vec<char>, i: usize) -> (r: bool)
    requires
        i + pat@.len() <= v@.len(),
    ensures
        r == occurs_at(v@, pat@, i as int),
{
    let n: usize = pat.len();
    let total: usize = v.len();
    let mut j: usize = 0;
    while j < n
        invariant
            j <= n == pat@.len(),
            i + n <= total == v@.len(),
            forall|m: int| 0 <= m < j ==> v@[i + m] == pat@[m],
        decreases n - j,
    {
        if v[i + j] != pat[j] {
            assert(v@.subrange(i as int, i + n)[j as int] != pat@[j as int]);
            return false;
        }
        j += 1;
    }
    assert(v@.subrange(i as int, i + n) == pat@);
    true
}

/// The first position, counted in characters, at which `pat` stands in `s`.
pub fn find(s: &str, pat: &str) -> (r: Option<usize>)
    ensures
        match r {
            Some(i) => first_at(s@, pat@) == Some(i as int) && i + pat@.len() <= s@.len(),
            None => first_at(s@, pat@) is None,
        },
{
    let v = chars_of(s);
    let p = chars_of(pat);
    let n: usize = v.len();
    let m: usize = p.len();
    let mut i: usize = 0;
    while i <= n && m <= n - i
        invariant
            i <= n + 1,
            v@ == s@,
            p@ == pat@,
            n == v@.len(),
            m == p@.len(),
            i > n ==> n < usize::MAX,
            first_at(v@, p@) == find_from(v@, p@, i as int),
        decreases n + 1 - i,
    {
        if occurs(&v, &p, i) {
            return Some(i);
        }
        if i == n {
            assert(v@.subrange(i as int, i as int) == p@);
        }
        i += 1;
    }
    None
}

/// The last position, counted in characters, at which `pat` stands in `s`.
pub fn rfind(s: &str, pat: &str) -> (r: Option<usize>)
    ensures
        match r {
            Some(i) => last_at(s@, pat@) == Some(i as int) && i + pat@.len() <= s@.len(),
            None => last_at(s@, pat@) is None,
        },
{
    let v = chars_of(s);
    let p = chars_of(pat);
    let n: usize = v.len();
    let m: usize = p.len();
    if m > n {
        return None;
    }
    let mut i: usize = n - m;
    loop
        invariant
            i + m <= n,
            v@ == s@,
            p@ == pat@,
            n == v@.len(),
            m == p@.len(),
            last_at(v@, p@) == rfind_from(v@, p@, i as int),
        decreases i,
    {
        if occurs(&v, &p, i) {
            return Some(i);
        }
        if i == 0 {
            assert(rfind_from(v@, p@, -1) is None);
            return None;
        }
        i -= 1;
    }
}

/// Whether `pat` stands somewhere in `s`.
pub fn contains(s: &str, pat: &str) -> (r: bool)
    ensures
        r == holds(s@, pat@),
{
    proof {
        lemma_first_at(s@, pat@);
    }
    find(s, pat).is_some()
}

/// Whether `s` begins with `pat`.
pub fn starts_with(s: &str, pat: &str) -> (r: bool)
    ensures
        r == begins(s@, pat@),
{
    let v = chars_of(s);
    let p = chars_of(pat);
    p.len() <= v.len() && occurs(&v, &p, 0)
}

/// Whether `s` ends with `pat`.
pub fn ends_with(s: &str, pat: &str) -> (r: bool)
    ensures
        r == ends(s@, pat@),
{
    let v = chars_of(s);
    let p = chars_of(pat);
    p.len() <= v.len() && occurs(&v, &p, v.len() - p.len())
}

/// Whether `s` holds the character `c`.
pub fn contains_char(s: &str, c: char) -> (r: bool)
    ensures
        r == s@.contains(c),
{
    let v = chars_of(s);
    let n: usize = v.len();
    let mut i: usize = 0;
    while i < n
        invariant
            v@ == s@,
            i <= n == v@.len(),
            forall|j: int| 0 <= j < i ==> v@[j] != c,
        decreases n - i,
    {
        if v[i] == c {
            return true;
        }
        i += 1;
    }
    false
}

/// How often `pat` stands in `s`, counted from the front without overlap.
pub fn count_matches(s: &str, pat: &str) -> (r: usize)
    requires
        pat@.len() > 0,
    ensures
        r == count_of(s@, pat@),
{
    let v = chars_of(s);
    let p = chars_of(pat);
    let n: usize = v.len();
    let m: usize = p.len();
    let mut i: usize = 0;
    let mut count: usize = 0;
    assert(v@.skip(0) == v@);
    while m <= n - i
        invariant
            count <= i <= n,
            n == v@.len(),
            m == p@.len(),
            m > 0,
            count_of(v@, p@) == count + count_of(v@.skip(i as int), p@),
        decreases n - i,
    {
        assert(v@.skip(i as int).subrange(0, m as int) == v@.subrange(i as int, i + m));
        if occurs(&v, &p, i) {
            assert(v@.skip(i as int).skip(m as int) == v@.skip(i + m));
            count += 1;
            i += m;
        } else {
            assert(v@.skip(i as int).skip(1) == v@.skip(i + 1));
            i += 1;
        }
    }
    count
}

/// `s` with every `pat` in it, taken from the front without overlap, replaced by `with`.
pub fn replace(s: &str, pat: &str, with: &str) -> (r: String)
    requires
        pat@.len() > 0,
    ensures
        r@ == replaced(s@, pat@, with@),
{
    let v = chars_of(s);
    let p = chars_of(pat);
    let n: usize = v.len();
    let m: usize = p.len();
    let mut i: usize = 0;
    let mut out: String = String::new();
    assert(v@.skip(0) == v@);
    while m <= n - i
        invariant
            i <= n == v@.len(),
            m == p@.len(),
            m > 0,
            replaced(v@, p@, with@) == out@ + replaced(v@.skip(i as int), p@, with@),
        decreases n - i,
    {
        let ghost rest = v@.skip(i as int);
        assert(rest.subrange(0, m as int) == v@.subrange(i as int, i + m));
        if occurs(&v, &p, i) {
            assert(rest.skip(m as int) == v@.skip(i + m));
            out.append(with);
            i += m;
        } else {
            assert(rest.skip(1) == v@.skip(i + 1));
            out.push(v[i]);
            i += 1;
        }
    }
    let tail = string_of(&v, i, n);
    out.append(tail.as_str());
    assert(v@.subrange(i as int, n as int) == v@.skip(i as int));
    out
}

/// `s` with every `c` in it replaced by `with`.
pub fn replace_char(s: &str, c: char, with: &str) -> (r: String)
    ensures
        r@ == char_replaced(s@, c, with@),
{
    let v = chars_of(s);
    let n: usize = v.len();
    let mut out: String = String::new();
    let mut i: usize = 0;
    while i < n
        invariant
            i <= n == v@.len(),
            out@ == char_replaced(v@.take(i as int), c, with@),
        decreases n - i,
    {
        assert(v@.take(i + 1).drop_last() == v@.take(i as int));
        if v[i] == c {
            out.append(with);
        } else {
            out.push(v[i]);
        }
        i += 1;
    }
    assert(v@.take(n as int) == v@);
    out
}

/// The words of `s`, in order.
pub fn split_words(s: &str) -> (r: Vec<String>)
    ensures
        texts(r@) == words(s@),
{
    let v = chars_of(s);
    let n: usize = v.len();
    let mut out: Vec<String> = Vec::new();
    let mut i: usize = 0;
    assert(v@.skip(0) == v@);
    assert(texts(out@) == Seq::<Seq<char>>::empty());
    while i < n
        invariant
            i <= n == v@.len(),
            words(v@) == texts(out@) + words(v@.skip(i as int)),
        decreases n - i,
    {
        let ghost rest = v@.skip(i as int);
        if char_is_space(v[i]) {
            assert(rest.skip(1) == v@.skip(i + 1));
            i += 1;
        } else {
            let mut j: usize = i;
            assert(rest.skip(0) == rest);
            while j < n && !char_is_space(v[j])
                invariant
                    i <= j <= n == v@.len(),
                    rest == v@.skip(i as int),
                    word_len(rest) == (j - i) + word_len(v@.skip(j as int)),
                decreases n - j,
            {
                assert(v@.skip(j as int).skip(1) == v@.skip(j + 1));
                j += 1;
            }
            let word = string_of(&v, i, j);
            assert(rest.take(j - i) == v@.subrange(i as int, j as int));
            assert(rest.skip(j - i) == v@.skip(j as int));
            let ghost before = out@;
            out.push(word);
            assert(texts(out@) == texts(before) + seq![rest.take(j - i)]);
            proof {
                assert(words(v@) == texts(before) + (seq![rest.take(j - i)] + words(v@.skip(j as int))));
            }
            i = j;
        }
    }
    assert(words(v@.skip(n as int)) == Seq::<Seq<char>>::empty());
    out
}

/// `parts` with `sep` between each two of them.
pub fn join(parts: &Vec<String>, sep: &str) -> (r: String)
    ensures
        r@ == joined(texts(parts@), sep@),
{
    let n: usize = parts.len();
    let mut out: String = String::new();
    let mut i: usize = 0;
    let ghost all = texts(parts@);
    while i < n
        invariant
            i <= n == parts@.len(),
            all == texts(parts@),
            out@ == joined(all.take(i as int), sep@),
        decreases n - i,
    {
        assert(all.take(i + 1).drop_last() == all.take(i as int));
        if i > 0 {
            out.append(sep);
        }
        out.append(parts[i].as_str());
        i += 1;
    }
    assert(all.take(n as int) == all);
    out
}

/// `s` with ASCII capitals turned into small letters.
pub fn to_ascii_lower(s: &str) -> (r: String)
    ensures
        r@ == ascii_lower(s@),
{
    let v = chars_of(s);
    let n: usize = v.len();
    let mut out: String = String::new();
    let mut i: usize = 0;
    while i < n
        invariant
            i <= n == v@.len(),
            out@ == ascii_lower(v@.take(i as int)),
        decreases n - i,
    {
        out.push(char_ascii_small(v[i]));
        i += 1;
        assert(ascii_lower(v@.take(i as int)) == ascii_lower(v@.take(i - 1)).push(
            ascii_small(v@[i - 1]),
        ));
    }
    assert(v@.take(n as int) == v@);
    out
}

/// What stands in `s` between the first `pat` and the second, or the end of `s`.
pub fn second_split<'a>(s: &'a str, pat: &str) -> (r: Option<&'a str>)
    ensures
        match r {
            Some(t) => second_piece(s@, pat@) == Some(t@),
            None => second_piece(s@, pat@) is None,
        },
{
    match find(s, pat) {
        None => None,
        Some(i) => {
            let total: usize = s.unicode_len();
            assert(i + pat@.len() <= total);
            let rest = skip_chars(s, i + pat.unicode_len());
            match find(rest, pat) {
                None => Some(rest),
                Some(j) => Some(take_chars(rest, j)),
            }
        },
    }
}

/// `s` without its first `n` characters.
pub fn skip_chars(s: &str, n: usize) -> (r: &str)
    requires
        n <= s@.len(),
    ensures
        r@ == s@.skip(n as int),
{
    let total: usize = s.unicode_len();
    assert(s@.subrange(n as int, total as int) == s@.skip(n as int));
    s.substring_char(n, total)
}

/// The first `n` characters of `s`.
pub fn take_chars(s: &str, n: usize) -> (r: &str)
    requires
        n <= s@.len(),
    ensures
        r@ == s@.take(n as int),
{
    assert(s@.subrange(0, n as int) == s@.take(n as int));
    s.substring_char(0, n)
}

/// How many characters of `s` make up its first `b` bytes, where a character ends there.
pub fn char_index(s: &str, b: u128) -> (r: Option<usize>)
    ensures
        match r {
            Some(i) => char_at_byte(s@, b as int) == Some(i as int) && i <= s@.len(),
            None => char_at_byte(s@, b as int) is None,
        },
{
    let v = chars_of(s);
    let n: usize = v.len();
    let mut i: usize = 0;
    let mut left: u128 = b;
    assert(v@.skip(0) == v@);
    while left > 0
        invariant
            i <= n == v@.len(),
            v@ == s@,
            char_at_byte(s@, b as int) == match char_at_byte(v@.skip(i as int), left as int) {
                Some(j) => Some(i + j),
                None => None::<int>,
            },
        decreases left,
    {
        if i >= n {
            return None;
        }
        let w = char_width(v[i]);
        if left < w {
            return None;
        }
        assert(v@.skip(i as int).skip(1) == v@.skip(i + 1));
        left -= w;
        i += 1;
    }
    Some(i)
}

/// The number of bytes that the first `n` characters of `s` take in UTF-8.
pub fn byte_offset(s: &str, n: usize) -> (r: usize)
    requires
        n <= s@.len(),
    ensures
        r == byte_len(s@.take(n as int)),
{
    let head = take_chars(s, n);
    proof {
        lemma_byte_len_encoding(head@);
    }
    head.as_bytes().len()
}

/// The lines of `s`.
pub fn split_lines(s: &str) -> (r: Vec<String>)
    ensures
        texts(r@) == lines(s@),
{
    let mut out: Vec<String> = Vec::new();
    let mut rest: &str = s;
    assert(texts(out@) =~= Seq::<Seq<char>>::empty());
    assert(texts(out@) + lines(rest@) =~= lines(s@));
    while !rest.is_empty()
        invariant
            texts(out@) + lines(rest@) == lines(s@),
        decreases rest@.len(),
    {
        let ghost before = out@;
        let total: usize = rest.unicode_len();
        proof {
            reveal_strlit("\n");
        }
        match find(rest, "\n") {
            None => {
                out.push(rest.to_owned());
                assert(texts(out@) =~= texts(before) + seq![rest@]);
                return out;
            },
            Some(i) => {
                assert(i + 1 <= total);
                let line = take_chars(rest, i);
                let line = if i > 0 && line.get_char(i - 1) == '\r' {
                    take_chars(line, i - 1)
                } else {
                    line
                };
                assert(line@ == without_return(rest@.take(i as int)));
                out.push(line.to_owned());
                let ghost tail = lines(rest@.skip(i + 1));
                assert(texts(out@) =~= texts(before) + seq![line@]);
                assert(texts(before) + (seq![line@] + tail) =~= texts(before) + seq![line@] + tail);
                rest = skip_chars(rest, i + 1);
            },
        }
    }
    assert(texts(out@) + lines(rest@) =~= texts(out@));
    out
}

/// The first characters of `s`, at most `n`.
pub fn take_up_to(s: &str, n: usize) -> (r: &str)
    ensures
        r@ == first_chars(s@, n as int),
{
    if s.unicode_len() <= n {
        s
    } else {
        take_chars(s, n)
    }
}

/// Two texts in a row.
pub fn cat2(a: &str, b: &str) -> (r: String)
    ensures
        r@ == a@ + b@,
{
    let mut out: String = a.to_owned();
    out.append(b);
    out
}

/// Three texts in a row.
pub fn cat3(a: &str, b: &str, c: &str) -> (r: String)
    ensures
        r@ == a@ + b@ + c@,
{
    let mut out: String = a.to_owned();
    out.append(b);
    out.append(c);
    out
}

/// Four texts in a row.
pub fn cat4(a: &str, b: &str, c: &str, d: &str) -> (r: String)
    ensures
        r@ == a@ + b@ + c@ + d@,
{
    let mut out: String = a.to_owned();
    out.append(b);
    out.append(c);
    out.append(d);
    out
}

/// Five texts in a row.
pub fn cat5(a: &str, b: &str, c: &str, d: &str, e: &str) -> (r: String)
    ensures
        r@ == a@ + b@ + c@ + d@ + e@,
{
    let mut out: String = a.to_owned();
    out.append(b);
    out.append(c);
    out.append(d);
    out.append(e);
    out
}

/// Six texts in a row.
pub fn cat6(a: &str, b: &str, c: &str, d: &str, e: &str, f: &str) -> (r: String)
    ensures
        r@ == a@ + b@ + c@ + d@ + e@ + f@,
{
    let mut out: String = a.to_owned();
    out.append(b);
    out.append(c);
    out.append(d);
    out.append(e);
    out.append(f);
    out
}

/// Seven texts in a row.
pub fn cat7(a: &str, b: &str, c: &str, d: &str, e: &str, f: &str, g: &str) -> (r: String)
    ensures
        r@ == a@ + b@ + c@ + d@ + e@ + f@ + g@,
{
    let mut out: String = a.to_owned();
    out.append(b);
    out.append(c);
    out.append(d);
    out.append(e);
    out.append(f);
    out.append(g);
    out
}

} // verus!
