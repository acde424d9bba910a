//! The content that a request asks to have written.
//!
//! Marker phrases are looked up in the request's form in small letters, and the request itself is
//! cut at the byte offsets found there. Some characters take another number of bytes in small
//! letters, so such an offset can fall inside a character of the request or behind its end. The
//! functions whose names begin with `try` say so by `None`.

use vstd::prelude::*;
use crate::chars::{ascii_small, in_class, is_space, CharClass};
use crate::outside::{lowered, to_lowercase};
use crate::text::{
    all_ascii, ascii_lower, begins, byte_len, byte_offset, char_at_byte, char_index, ends, ends_with,
    find, first_at, holds, last_at, lead, lemma_ascii_bytes, lemma_first_at, lemma_found_first,
    lemma_last_at, lemma_trimmed_bare, lemma_trimmed_part, occurs_at, only,
    only_the_edges_are_trimmed, opt_text, rfind, skip_chars, starts_with, str_texts, take_chars,
    to_ascii_lower, trail, trim, trim_by, trim_end_by, trim_start_by, trimmed, trimmed_by,
    trimmed_end, trimmed_start,
};

verus! {

/// The phrases that introduce content.
pub open spec fn content_markers() -> Seq<Seq<char>> {
    seq![
        " with content "@,
        " with the content "@,
        " with text "@,
        " with the text "@,
        " content: "@,
        " mit inhalt "@,
        " mit dem inhalt "@,
        " mit text "@,
        " mit dem text "@,
        " inhalt: "@,
        " text: "@,
    ]
}

/// The phrases that end content.
pub open spec fn content_boundaries() -> Seq<Seq<char>> {
    seq![
        " and the name "@,
        " and name "@,
        " and filename "@,
        " with the name "@,
        " with name "@,
        " named "@,
        " into the file "@,
        " into file "@,
        " und dem namen "@,
        " und den namen "@,
        " und namen "@,
        " und name "@,
        " und dem dateinamen "@,
        " und den dateinamen "@,
        " mit dem namen "@,
        " mit namen "@,
        " namens "@,
        " in die datei "@,
        " in datei "@,
    ]
}

/// The first position at which one of the phrases stands in `lower`.
pub open spec fn first_phrase(lower: Seq<char>, phrases: Seq<Seq<char>>) -> Option<int>
    decreases phrases.len(),
{
    if phrases.len() == 0 {
        None
    } else {
        match (first_phrase(lower, phrases.drop_last()), first_at(lower, phrases.last())) {
            (Some(a), Some(b)) => Some(if b < a {
                b
            } else {
                a
            }),
            (Some(a), None) => Some(a),
            (None, b) => b,
        }
    }
}

/// The byte offset in `lower` at which content ends.
pub open spec fn boundary(lower: Seq<char>) -> Option<nat> {
    match first_phrase(lower, content_boundaries()) {
        Some(i) => Some(byte_len(lower.take(i))),
        None => None,
    }
}

/// `content` up to the first phrase that ends it, found in its form in small letters.
pub open spec fn before_boundary(content: Seq<char>, lower: Seq<char>) -> Option<Seq<char>> {
    match boundary(lower) {
        Some(b) => match char_at_byte(content, b as int) {
            Some(i) => Some(content.take(i)),
            None => None,
        },
        None => Some(content),
    }
}

/// `content` without white space, and then without quotes and punctuation, at either end; `None`
/// where nothing is left.
pub open spec fn bare(content: Seq<char>) -> Option<Seq<char>> {
    let c = trimmed_by(trimmed(content), CharClass::ContentEdge);
    if c.len() == 0 {
        None
    } else {
        Some(c)
    }
}

/// The content that a fragment of a request holds.
pub open spec fn fragment_content(fragment: Seq<char>) -> Option<Option<Seq<char>>> {
    match before_boundary(trimmed(fragment), lowered(trimmed(fragment))) {
        Some(c) => Some(bare(c)),
        None => None,
    }
}

/// The rest of `request` behind the first of the markers that stands in `lower`: `None` where that
/// rest does not begin at a character of `request`, `Some(None)` where no marker stands there.
pub open spec fn after_marker(
    request: Seq<char>,
    lower: Seq<char>,
    markers: Seq<Seq<char>>,
) -> Option<Option<Seq<char>>>
    decreases markers.len(),
{
    if markers.len() == 0 {
        Some(None)
    } else {
        match first_at(lower, markers[0]) {
            None => after_marker(request, lower, markers.skip(1)),
            Some(i) => match char_at_byte(
                request,
                (byte_len(lower.take(i)) + byte_len(markers[0])) as int,
            ) {
                Some(j) => Some(Some(request.skip(j))),
                None => None,
            },
        }
    }
}

/// A fragment up to the first phrase that ends content, without white space around it, where all
/// of it is ASCII.
pub open spec fn ascii_cut(fragment: Seq<char>) -> Seq<char> {
    let t = trimmed(fragment);
    match first_phrase(ascii_lower(t), content_boundaries()) {
        Some(i) => t.take(i),
        None => t,
    }
}

/// What [`first_phrase`] finds: nothing of the phrases stands before it.
proof fn lemma_first_phrase(lower: Seq<char>, phrases: Seq<Seq<char>>)
    ensures
        match first_phrase(lower, phrases) {
            Some(i) => 0 <= i <= lower.len() && forall|p: int, j: int|
                0 <= p < phrases.len() && 0 <= j < i ==> !#[trigger] occurs_at(
                    lower,
                    phrases[p],
                    j,
                ),
            None => forall|p: int, j: int|
                0 <= p < phrases.len() ==> !#[trigger] occurs_at(lower, phrases[p], j),
        },
    decreases phrases.len(),
{
    if phrases.len() > 0 {
        let rest = phrases.drop_last();
        lemma_first_phrase(lower, rest);
        lemma_first_at(lower, phrases.last());
        assert forall|p: int, j: int|
            0 <= p < phrases.len() && 0 <= j && (first_phrase(lower, phrases) matches Some(i) ==> j
                < i) implies !#[trigger] occurs_at(lower, phrases[p], j) by {
            if p < rest.len() {
                assert(phrases[p] == rest[p]);
                assert(!occurs_at(lower, rest[p], j));
            } else {
                assert(phrases[p] == phrases.last());
                match first_at(lower, phrases.last()) {
                    Some(b) => {
                        assert(j < b);
                    },
                    None => {
                        assert(!holds(lower, phrases.last()));
                    },
                }
            }
        }
    }
}

/// A text in which none of the phrases stands has no phrase at all.
proof fn lemma_no_phrase(lower: Seq<char>, phrases: Seq<Seq<char>>)
    requires
        forall|p: int, j: int|
            0 <= p < phrases.len() ==> !#[trigger] occurs_at(lower, phrases[p], j),
    ensures
        first_phrase(lower, phrases) is None,
    decreases phrases.len(),
{
    if phrases.len() > 0 {
        let rest = phrases.drop_last();
        assert forall|p: int, j: int| 0 <= p < rest.len() implies !#[trigger] occurs_at(
            lower,
            rest[p],
            j,
        ) by {
            assert(rest[p] == phrases[p]);
        }
        lemma_no_phrase(lower, rest);
        lemma_first_at(lower, phrases.last());
        match first_at(lower, phrases.last()) {
            Some(b) => {
                assert(!occurs_at(lower, phrases[phrases.len() - 1], b));
            },
            None => {},
        }
    }
}

/// Of ASCII text, the content of a fragment is what is left of it once it is cut and trimmed: a
/// part of the fragment as it stands there, with neither a quote nor punctuation at its ends, and
/// without a phrase that ends content. There is none exactly where nothing is left.
pub proof fn content_is_a_bare_part(fragment: Seq<char>)
    requires
        all_ascii(fragment),
    ensures
        fragment_content(fragment) == Some(bare(ascii_cut(fragment))),
        fragment_content(fragment) == Some(None::<Seq<char>>) <==> trimmed_by(
            trimmed(ascii_cut(fragment)),
            CharClass::ContentEdge,
        ).len() == 0,
        fragment_content(fragment) matches Some(Some(r)) ==> {
            &&& r.len() > 0
            &&& exists|a: int, b: int|
                0 <= a < b <= fragment.len() && r == #[trigger] fragment.subrange(a, b)
            &&& !in_class(CharClass::ContentEdge, r[0])
            &&& !in_class(CharClass::ContentEdge, r.last())
            &&& boundary(lowered(r)) is None
        },
{
    let t = trimmed(fragment);
    lemma_trimmed_part(fragment, CharClass::Space);
    let a = lead(fragment, CharClass::Space) as int;
    assert forall|i: int| 0 <= i < t.len() implies (#[trigger] t[i] as u32) < 0x80 by {
        assert(t[i] == fragment[a + i]);
    }
    let lower = ascii_lower(t);
    assert(lowered(t) == lower);
    lemma_first_phrase(lower, content_boundaries());
    let cut = ascii_cut(fragment);
    match first_phrase(lower, content_boundaries()) {
        Some(i) => {
            let front = lower.take(i);
            assert forall|j: int| 0 <= j < front.len() implies (#[trigger] front[j] as u32)
                < 0x80 by {
                assert(front[j] == ascii_small(t[j]));
                assert((t[j] as u32) < 0x80);
            }
            lemma_ascii_bytes(front, 0);
            lemma_ascii_bytes(t, i);
        },
        None => {},
    }
    assert(before_boundary(t, lowered(t)) == Some(cut));
    let inner = trimmed(cut);
    lemma_trimmed_part(cut, CharClass::Space);
    lemma_trimmed_part(inner, CharClass::ContentEdge);
    let r = trimmed_by(inner, CharClass::ContentEdge);
    if r.len() > 0 {
        let b = lead(cut, CharClass::Space) as int;
        let c = lead(inner, CharClass::ContentEdge) as int;
        let at = b + c;
        assert forall|i: int| 0 <= i < r.len() implies #[trigger] r[i] == t[at + i] && r[i]
            == fragment[a + at + i] by {
            assert(r[i] == inner[c + i]);
            assert(inner[c + i] == cut[b + c + i]);
            assert(cut[b + c + i] == t[at + i]);
        }
        assert(fragment.subrange(a + at, a + at + r.len()) =~= r);
        assert forall|i: int| 0 <= i < r.len() implies (#[trigger] r[i] as u32) < 0x80 by {
            assert(r[i] == t[at + i]);
        }
        let small = ascii_lower(r);
        assert(lowered(r) == small);
        let phrases = content_boundaries();
        assert forall|p: int, j: int| 0 <= p < phrases.len() implies !#[trigger] occurs_at(
            small,
            phrases[p],
            j,
        ) by {
            if occurs_at(small, phrases[p], j) {
                let n = phrases[p].len();
                assert(lower.subrange(at + j, at + j + n) =~= phrases[p]) by {
                    assert forall|x: int| 0 <= x < n implies lower[at + j + x] == phrases[p][x] by {
                        assert(small.subrange(j, j + n)[x] == phrases[p][x]);
                        assert(small[j + x] == ascii_small(r[j + x]));
                        assert(r[j + x] == t[at + j + x]);
                    }
                }
                assert(occurs_at(lower, phrases[p], at + j));
                match first_phrase(lower, phrases) {
                    Some(i) => {
                        assert(at + j + n <= i);
                        if n == 0 {
                            assert(lower.subrange(0, 0) =~= phrases[p]);
                            assert(occurs_at(lower, phrases[p], 0));
                        }
                    },
                    None => {},
                }
            }
        }
        lemma_no_phrase(small, phrases);
    }
}

/// The content that a request gives behind a marker.
pub open spec fn requested_content(request: Seq<char>) -> Option<Option<Seq<char>>> {
    match after_marker(request, lowered(request), content_markers()) {
        None => None,
        Some(None) => Some(None),
        Some(Some(rest)) => fragment_content(rest),
    }
}

/// One of the phrases that introduce content.
pub open spec fn introduces_content(phrase: Seq<char>) -> bool {
    ||| phrase == " with content "@
    ||| phrase == " with the content "@
    ||| phrase == " with text "@
    ||| phrase == " with the text "@
    ||| phrase == " content: "@
    ||| phrase == " mit inhalt "@
    ||| phrase == " mit dem inhalt "@
    ||| phrase == " mit text "@
    ||| phrase == " mit dem text "@
    ||| phrase == " inhalt: "@
    ||| phrase == " text: "@
}

/// One of the phrases that end content.
pub open spec fn ends_content(phrase: Seq<char>) -> bool {
    ||| phrase == " and the name "@
    ||| phrase == " and name "@
    ||| phrase == " and filename "@
    ||| phrase == " with the name "@
    ||| phrase == " with name "@
    ||| phrase == " named "@
    ||| phrase == " into the file "@
    ||| phrase == " into file "@
    ||| phrase == " und dem namen "@
    ||| phrase == " und den namen "@
    ||| phrase == " und namen "@
    ||| phrase == " und name "@
    ||| phrase == " und dem dateinamen "@
    ||| phrase == " und den dateinamen "@
    ||| phrase == " mit dem namen "@
    ||| phrase == " mit namen "@
    ||| phrase == " namens "@
    ||| phrase == " in die datei "@
    ||| phrase == " in datei "@
}

/// Text that is content as it stands: neither white space nor quotes nor punctuation at its ends.
pub open spec fn plain_content(c: Seq<char>) -> bool {
    &&& all_ascii(c)
    &&& c.len() > 0
    &&& !is_space(c[0])
    &&& !is_space(c.last())
    &&& !in_class(CharClass::ContentEdge, c[0])
    &&& !in_class(CharClass::ContentEdge, c.last())
}

/// The phrases are those that the list holds.
proof fn lemma_phrases_listed(phrase: Seq<char>)
    ensures
        introduces_content(phrase) <==> content_markers().contains(phrase),
        ends_content(phrase) <==> content_boundaries().contains(phrase),
{
    let m = content_markers();
    assert(m[0] == " with content "@ && m[1] == " with the content "@ && m[2] == " with text "@
        && m[3] == " with the text "@ && m[4] == " content: "@ && m[5] == " mit inhalt "@ && m[6]
        == " mit dem inhalt "@ && m[7] == " mit text "@ && m[8] == " mit dem text "@ && m[9]
        == " inhalt: "@ && m[10] == " text: "@);
    let b = content_boundaries();
    assert(b[0] == " and the name "@ && b[1] == " and name "@ && b[2] == " and filename "@ && b[3]
        == " with the name "@ && b[4] == " with name "@ && b[5] == " named "@ && b[6]
        == " into the file "@ && b[7] == " into file "@ && b[8] == " und dem namen "@ && b[9]
        == " und den namen "@ && b[10] == " und namen "@ && b[11] == " und name "@ && b[12]
        == " und dem dateinamen "@ && b[13] == " und den dateinamen "@ && b[14]
        == " mit dem namen "@ && b[15] == " mit namen "@ && b[16] == " namens "@ && b[17]
        == " in die datei "@ && b[18] == " in datei "@);
}

/// A part of ASCII text is ASCII, and so is the text in small letters.
proof fn lemma_ascii_parts(a: Seq<char>, b: Seq<char>)
    requires
        all_ascii(a + b),
    ensures
        all_ascii(a),
        all_ascii(b),
        all_ascii(ascii_lower(a)),
        ascii_lower(a + b) == ascii_lower(a) + ascii_lower(b),
{
    assert forall|i: int| 0 <= i < a.len() implies (#[trigger] a[i] as u32) < 0x80 by {
        assert((a + b)[i] == a[i]);
    }
    assert forall|i: int| 0 <= i < b.len() implies (#[trigger] b[i] as u32) < 0x80 by {
        assert((a + b)[a.len() + i] == b[i]);
    }
    assert forall|i: int| 0 <= i < a.len() implies (#[trigger] ascii_lower(a)[i] as u32) < 0x80 by {
        assert(ascii_lower(a)[i] == ascii_small(a[i]));
        assert((a[i] as u32) < 0x80);
    }
    assert(ascii_lower(a + b) =~= ascii_lower(a) + ascii_lower(b));
}

/// Content that is plain and holds no phrase that ends content is taken as it stands.
pub proof fn plain_content_is_kept(c: Seq<char>)
    requires
        plain_content(c),
        forall|p: Seq<char>| #[trigger] ends_content(p) ==> !holds(ascii_lower(c), p),
    ensures
        fragment_content(c) == Some(Some(c)),
{
    content_is_a_bare_part(c);
    lemma_trimmed_bare(c, CharClass::Space);
    lemma_trimmed_bare(c, CharClass::ContentEdge);
    let phrases = content_boundaries();
    assert forall|p: int, j: int| 0 <= p < phrases.len() implies !#[trigger] occurs_at(
        ascii_lower(c),
        phrases[p],
        j,
    ) by {
        lemma_phrases_listed(phrases[p]);
        assert(phrases.contains(phrases[p]));
        assert(ends_content(phrases[p]));
    }
    lemma_no_phrase(ascii_lower(c), phrases);
}

/// Content ends where the first phrase that ends content begins.
#[verifier::rlimit(40)]
pub proof fn content_ends_at_the_first_phrase(c: Seq<char>, phrase: Seq<char>, rest: Seq<char>)
    requires
        plain_content(c),
        all_ascii(c + phrase + rest),
        ends_content(ascii_lower(phrase)),
        rest.len() > 0,
        !is_space(rest.last()),
        forall|p: Seq<char>, j: int|
            0 <= j < c.len() && ends_content(p) ==> !#[trigger] occurs_at(
                ascii_lower(c + phrase + rest),
                p,
                j,
            ),
    ensures
        fragment_content(c + phrase + rest) == Some(Some(c)),
{
    let all = c + phrase + rest;
    let lower = ascii_lower(all);
    let n = c.len() as int;
    assert(lower.subrange(n, n + phrase.len()) =~= ascii_lower(phrase));
    lemma_first_boundary(lower, ascii_lower(phrase), n);
    lemma_cut_to(all, c);
}

/// Text that is cut behind plain content gives that content.
proof fn lemma_cut_to(all: Seq<char>, c: Seq<char>)
    requires
        all_ascii(all),
        plain_content(c),
        c.len() <= all.len(),
        all.take(c.len() as int) =~= c,
        !is_space(all.last()),
        first_phrase(ascii_lower(all), content_boundaries()) == Some(c.len() as int),
    ensures
        fragment_content(all) == Some(Some(c)),
{
    content_is_a_bare_part(all);
    assert(all[0] == all.take(c.len() as int)[0]);
    lemma_trimmed_bare(all, CharClass::Space);
    lemma_trimmed_bare(c, CharClass::Space);
    lemma_trimmed_bare(c, CharClass::ContentEdge);
}

/// Content ends at the first place where a phrase stands that ends it.
proof fn lemma_first_boundary(lower: Seq<char>, phrase: Seq<char>, n: int)
    requires
        ends_content(phrase),
        occurs_at(lower, phrase, n),
        forall|p: Seq<char>, j: int|
            0 <= j < n && ends_content(p) ==> !#[trigger] occurs_at(lower, p, j),
    ensures
        first_phrase(lower, content_boundaries()) == Some(n),
{
    let phrases = content_boundaries();
    lemma_phrases_listed(phrase);
    let k = phrases.index_of(phrase);
    assert forall|p: int, j: int| 0 <= p < phrases.len() && 0 <= j < n implies !#[trigger] occurs_at(
        lower,
        phrases[p],
        j,
    ) by {
        assert(phrases.contains(phrases[p]));
        lemma_phrases_listed(phrases[p]);
    }
    lemma_first_phrase_is(lower, phrases, k, n);
}

/// A place where one of the phrases stands, and none before it, is the first.
proof fn lemma_first_phrase_is(lower: Seq<char>, phrases: Seq<Seq<char>>, k: int, n: int)
    requires
        0 <= k < phrases.len(),
        occurs_at(lower, phrases[k], n),
        forall|p: int, j: int|
            0 <= p < phrases.len() && 0 <= j < n ==> !#[trigger] occurs_at(lower, phrases[p], j),
    ensures
        first_phrase(lower, phrases) == Some(n),
{
    lemma_first_phrase(lower, phrases);
    lemma_phrase_found(lower, phrases);
    if first_phrase(lower, phrases) is Some {
        let i = first_phrase(lower, phrases)->0;
        let p = choose|p: int| 0 <= p < phrases.len() && occurs_at(lower, phrases[p], i);
        assert(occurs_at(lower, phrases[p], i));
        if i > n {
            assert(!occurs_at(lower, phrases[k], n));
        }
    }
}

/// Where [`first_phrase`] finds something, one of the phrases stands there.
proof fn lemma_phrase_found(lower: Seq<char>, phrases: Seq<Seq<char>>)
    ensures
        first_phrase(lower, phrases) matches Some(i) ==> exists|p: int|
            0 <= p < phrases.len() && occurs_at(lower, phrases[p], i),
    decreases phrases.len(),
{
    if phrases.len() > 0 {
        let rest = phrases.drop_last();
        lemma_phrase_found(lower, rest);
        lemma_first_at(lower, phrases.last());
        match first_phrase(lower, phrases) {
            Some(i) => {
                if first_at(lower, phrases.last()) == Some(i) {
                    assert(occurs_at(lower, phrases[phrases.len() - 1], i));
                } else {
                    let p = choose|p: int| 0 <= p < rest.len() && occurs_at(lower, rest[p], i);
                    assert(occurs_at(lower, phrases[p], i));
                }
            },
            None => {},
        }
    }
}

/// The content that an ASCII request gives is that of what stands behind the phrase that introduces
/// it, in capitals or not, where no other such phrase stands in the request.
#[verifier::rlimit(40)]
pub proof fn content_stands_behind_its_phrase(front: Seq<char>, phrase: Seq<char>, rest: Seq<char>)
    requires
        all_ascii(front + phrase + rest),
        introduces_content(ascii_lower(phrase)),
        forall|p: Seq<char>, j: int|
            introduces_content(p) && #[trigger] occurs_at(ascii_lower(front + phrase + rest), p, j)
                ==> p == ascii_lower(phrase) && j >= front.len(),
    ensures
        requested_content(front + phrase + rest) == fragment_content(rest),
{
    let request = front + phrase + rest;
    let lower = ascii_lower(request);
    let marker = ascii_lower(phrase);
    let markers = content_markers();
    lemma_phrases_listed(marker);
    let k = lemma_first_index(markers, marker, markers.index_of(marker));
    let n = front.len() as int;
    assert(request =~= front + (phrase + rest));
    lemma_ascii_parts(front, phrase + rest);
    lemma_ascii_parts(phrase, rest);
    assert(lower.subrange(n, n + phrase.len()) =~= marker);
    assert(occurs_at(lower, marker, n));
    lemma_found_first(lower, marker, n);
    assert(lower.take(n) =~= ascii_lower(front));
    lemma_ascii_bytes(lower.take(n), 0);
    lemma_ascii_bytes(marker, 0);
    lemma_ascii_bytes(request, n + phrase.len());
    assert(request.skip(n + phrase.len()) =~= rest);
    assert forall|p: int| 0 <= p < k implies !holds(lower, #[trigger] markers[p]) by {
        lemma_phrases_listed(markers[p]);
        assert(markers.contains(markers[p]));
        if holds(lower, markers[p]) {
            let j = choose|j: int| occurs_at(lower, markers[p], j);
            assert(markers[p] == marker);
        }
    }
    lemma_after_marker(request, lower, markers, k);
}

/// The first place of a phrase in a list.
proof fn lemma_first_index(list: Seq<Seq<char>>, phrase: Seq<char>, i: int) -> (k: int)
    requires
        0 <= i < list.len(),
        list[i] == phrase,
    ensures
        0 <= k <= i,
        list[k] == phrase,
        forall|p: int| 0 <= p < k ==> #[trigger] list[p] != phrase,
    decreases i,
{
    if exists|p: int| 0 <= p < i && #[trigger] list[p] == phrase {
        let p = choose|p: int| 0 <= p < i && #[trigger] list[p] == phrase;
        lemma_first_index(list, phrase, p)
    } else {
        i
    }
}

/// Phrases that do not stand in the request are passed over.
proof fn lemma_after_marker(
    request: Seq<char>,
    lower: Seq<char>,
    markers: Seq<Seq<char>>,
    k: int,
)
    requires
        0 <= k < markers.len(),
        forall|p: int| 0 <= p < k ==> !holds(lower, #[trigger] markers[p]),
    ensures
        after_marker(request, lower, markers) == after_marker(request, lower, markers.skip(k)),
        markers.skip(k)[0] == markers[k],
    decreases k,
{
    if k > 0 {
        lemma_first_at(lower, markers[0]);
        let rest = markers.skip(1);
        assert forall|p: int| 0 <= p < k - 1 implies !holds(lower, #[trigger] rest[p]) by {
            assert(rest[p] == markers[p + 1]);
        }
        lemma_after_marker(request, lower, rest, k - 1);
        assert(rest.skip(k - 1) =~= markers.skip(k));
    } else {
        assert(markers.skip(0) =~= markers);
    }
}

/// Where no phrase that introduces content stands in a request, none is found behind one.
pub proof fn without_a_phrase_there_is_no_content(request: Seq<char>)
    requires
        forall|p: Seq<char>| #[trigger] introduces_content(p) ==> !holds(lowered(request), p),
    ensures
        requested_content(request) == Some(None::<Seq<char>>),
{
    let markers = content_markers();
    assert forall|p: int| 0 <= p < markers.len() implies !holds(
        lowered(request),
        #[trigger] markers[p],
    ) by {
        lemma_phrases_listed(markers[p]);
        assert(markers.contains(markers[p]));
        assert(introduces_content(markers[p]));
    }
    lemma_no_marker(request, lowered(request), markers);
}

/// [`without_a_phrase_there_is_no_content`] for any list of phrases.
proof fn lemma_no_marker(request: Seq<char>, lower: Seq<char>, markers: Seq<Seq<char>>)
    requires
        forall|p: int| 0 <= p < markers.len() ==> !holds(lower, #[trigger] markers[p]),
    ensures
        after_marker(request, lower, markers) == Some(None::<Seq<char>>),
    decreases markers.len(),
{
    if markers.len() > 0 {
        lemma_first_at(lower, markers[0]);
        let rest = markers.skip(1);
        assert forall|p: int| 0 <= p < rest.len() implies !holds(lower, #[trigger] rest[p]) by {
            assert(rest[p] == markers[p + 1]);
        }
        lemma_no_marker(request, lower, rest);
    }
}

/// `content` without `prefix` and the white space behind it, where its form in small letters
/// begins with `prefix`.
pub open spec fn without_prefix(
    content: Seq<char>,
    lower: Seq<char>,
    prefix: Seq<char>,
) -> Option<Seq<char>> {
    if begins(lower, prefix) {
        match char_at_byte(content, byte_len(prefix) as int) {
            Some(i) => Some(trimmed_start(content.skip(i), CharClass::Space)),
            None => None,
        }
    } else {
        Some(content)
    }
}

/// `content` without the courtesies it may begin with.
pub open spec fn without_courtesy(content: Seq<char>) -> Option<Seq<char>> {
    match without_prefix(content, lowered(content), "please "@) {
        None => None,
        Some(a) => match without_prefix(a, lowered(a), "the text "@) {
            None => None,
            Some(b) => without_prefix(b, lowered(b), "the content "@),
        },
    }
}

/// `content` without the words "into it" at its end, and the punctuation behind them.
pub open spec fn before_it(content: Seq<char>) -> Seq<char> {
    let bare = trimmed_end(content, CharClass::ContentEdge);
    if ends(ascii_lower(bare), " into it"@) {
        bare.take(bare.len() - 8)
    } else {
        content
    }
}

/// `content` up to the word "rein", found in its form in small letters.
pub open spec fn before_rein(content: Seq<char>, lower: Seq<char>) -> Option<Seq<char>> {
    match first_at(lower, " rein"@) {
        None => Some(content),
        Some(i) => match char_at_byte(content, byte_len(lower.take(i)) as int) {
            Some(j) => Some(content.take(j)),
            None => None,
        },
    }
}

/// The rest of `request` behind the last `marker` in `lower`, in the manner of [`after_marker`].
pub open spec fn after_last_marker(
    request: Seq<char>,
    lower: Seq<char>,
    marker: Seq<char>,
) -> Option<Option<Seq<char>>> {
    match last_at(lower, marker) {
        None => Some(None),
        Some(i) => match char_at_byte(
            request,
            (byte_len(lower.take(i)) + byte_len(marker)) as int,
        ) {
            Some(j) => Some(Some(request.skip(j))),
            None => None,
        },
    }
}

/// The rest of `request` behind the last "write", or else behind the last "add".
pub open spec fn after_verb(request: Seq<char>, lower: Seq<char>) -> Option<Option<Seq<char>>> {
    match after_last_marker(request, lower, "write "@) {
        Some(None) => after_last_marker(request, lower, "add "@),
        found => found,
    }
}

/// The content in the rest of a request behind the verb.
pub open spec fn verb_content(rest: Seq<char>) -> Option<Option<Seq<char>>> {
    match without_courtesy(trimmed(rest)) {
        None => None,
        Some(c) => match before_rein(before_it(c), lowered(before_it(c))) {
            None => None,
            Some(d) => fragment_content(d),
        },
    }
}

/// The content that a request gives behind "write" or "add".
pub open spec fn followup_content(request: Seq<char>) -> Option<Option<Seq<char>>> {
    match after_verb(request, lowered(request)) {
        None => None,
        Some(None) => Some(None),
        Some(Some(rest)) => verb_content(rest),
    }
}

/// Content that stands behind a verb as it is: it begins with no courtesy, and neither "rein" nor
/// "into it" belongs to the verb.
pub open spec fn plain_behind_verb(c: Seq<char>) -> bool {
    let lower = ascii_lower(c);
    &&& plain_content(c)
    &&& !begins(lower, "please "@)
    &&& !begins(lower, "the text "@)
    &&& !begins(lower, "the content "@)
    &&& !holds(lower, " rein"@)
    &&& !ends(lower, " into it"@)
    &&& forall|p: Seq<char>| #[trigger] ends_content(p) ==> !holds(lower, p)
}

/// What stands behind the last "write" of an ASCII request, or behind the last "add" where there is
/// no "write", is the content that it gives behind its verb; the words "into it" do not belong to it.
#[verifier::rlimit(40)]
pub proof fn content_stands_behind_the_verb(front: Seq<char>, verb: Seq<char>, c: Seq<char>)
    requires
        ascii_lower(verb) == "write "@ || (ascii_lower(verb) == "add "@ && !holds(
            ascii_lower(front + verb + c),
            "write "@,
        )),
        all_ascii(front + verb + c),
        plain_behind_verb(c),
        forall|j: int|
            occurs_at(ascii_lower(front + verb + c), ascii_lower(verb), j) ==> j <= front.len(),
    ensures
        followup_content(front + verb + c) == Some(Some(c)),
{
    let request = front + verb + c;
    lemma_behind_last(front, verb, c);
    lemma_last_at(ascii_lower(request), "write "@);
    assert(lowered(request) == ascii_lower(request));
    assert(after_verb(request, lowered(request)) == Some(Some(c)));
    lemma_verb_content(c);
}

/// What stands behind the last phrase of an ASCII request.
proof fn lemma_behind_last(front: Seq<char>, phrase: Seq<char>, c: Seq<char>)
    requires
        all_ascii(front + phrase + c),
        forall|j: int|
            occurs_at(ascii_lower(front + phrase + c), ascii_lower(phrase), j) ==> j <= front.len(),
    ensures
        after_last_marker(
            front + phrase + c,
            ascii_lower(front + phrase + c),
            ascii_lower(phrase),
        ) == Some(Some(c)),
{
    let request = front + phrase + c;
    let lower = ascii_lower(request);
    let marker = ascii_lower(phrase);
    let n = front.len() as int;
    assert(request =~= front + (phrase + c));
    lemma_ascii_parts(front, phrase + c);
    lemma_ascii_parts(phrase, c);
    assert(lower.subrange(n, n + phrase.len()) =~= marker);
    assert(occurs_at(lower, marker, n));
    lemma_last_at(lower, marker);
    assert(last_at(lower, marker) == Some(n));
    assert(lower.take(n) =~= ascii_lower(front));
    lemma_ascii_bytes(lower.take(n), 0);
    lemma_ascii_bytes(marker, 0);
    lemma_ascii_bytes(request, n + phrase.len());
    assert(request.skip(n + phrase.len()) =~= c);
}

/// What is plain behind a verb is its content.
proof fn lemma_verb_content(c: Seq<char>)
    requires
        plain_behind_verb(c),
    ensures
        verb_content(c) == Some(Some(c)),
{
    lemma_trimmed_bare(c, CharClass::Space);
    assert(lowered(c) == ascii_lower(c));
    assert(without_courtesy(c) == Some(c));
    assert(trail(c, CharClass::ContentEdge) == 0);
    assert(trimmed_end(c, CharClass::ContentEdge) =~= c);
    lemma_first_at(ascii_lower(c), " rein"@);
    plain_content_is_kept(c);
}

/// The words "into it" behind content do not belong to it.
pub proof fn the_words_into_it_are_cut(c: Seq<char>, words: Seq<char>)
    requires
        c.len() > 0,
        ascii_lower(words) == " into it"@,
    ensures
        before_it(c + words) == c,
        before_it(c + words + "."@) == c,
{
    reveal_strlit(" into it");
    reveal_strlit(".");
    let all = c + words;
    let k = CharClass::ContentEdge;
    assert(words.len() == ascii_lower(words).len());
    assert(ascii_lower(words)[7] == ascii_small(words[7]));
    assert(words[7] == 't' || words[7] == 'T');
    assert(all.last() == words[7]);
    assert(trail(all, k) == 0);
    assert(trimmed_end(all, k) =~= all);
    assert(ascii_lower(all).subrange(all.len() - 8, all.len() as int) =~= ascii_lower(words));
    assert(all.take(all.len() - 8) =~= c);
    let dotted = all + "."@;
    assert(dotted.drop_last() =~= all);
    assert(dotted.last() == '.');
    assert(trail(dotted, k) == 1 + trail(all, k));
    assert(trimmed_end(dotted, k) =~= all);
}

/// Quotes and punctuation around content do not belong to it, nor white space around those; where
/// nothing else is there, there is no content.
#[verifier::rlimit(40)]
pub proof fn quotes_around_content_are_cut(
    before: Seq<char>,
    front: Seq<char>,
    c: Seq<char>,
    behind: Seq<char>,
    after: Seq<char>,
)
    requires
        only(before, |x: char| is_space(x)),
        only(after, |x: char| is_space(x)),
        only(front, |x: char| in_class(CharClass::ContentEdge, x)),
        only(behind, |x: char| in_class(CharClass::ContentEdge, x)),
        c.len() > 0 ==> plain_content(c),
    ensures
        c.len() > 0 ==> bare(before + (front + c + behind) + after) == Some(c),
        c.len() == 0 ==> bare(before + (front + c + behind) + after) is None,
{
    let s = CharClass::Space;
    let e = CharClass::ContentEdge;
    let inner = front + c + behind;
    let p = |x: char| is_space(x);
    let q = |x: char| in_class(e, x);
    assert forall|i: int| 0 <= i < before.len() implies in_class(s, #[trigger] before[i]) by {
        assert(p(before[i]));
    }
    assert forall|i: int| 0 <= i < after.len() implies in_class(s, #[trigger] after[i]) by {
        assert(p(after[i]));
    }
    if inner.len() > 0 {
        assert(!is_space(inner[0])) by {
            if front.len() > 0 {
                assert(q(front[0]));
            } else if c.len() == 0 {
                assert(q(behind[0]));
            }
        }
        assert(!is_space(inner.last())) by {
            if behind.len() > 0 {
                assert(q(behind[behind.len() - 1]));
            } else if c.len() == 0 {
                assert(q(front[front.len() - 1]));
            }
        }
    }
    only_the_edges_are_trimmed(before, inner, after, s);
    only_the_edges_are_trimmed(front, c, behind, e);
}

/// A "please" in front of content does not belong to it, nor do the words "the text" or "the content".
#[verifier::rlimit(40)]
pub proof fn courtesies_are_cut(word: Seq<char>, c: Seq<char>)
    requires
        ascii_lower(word) == "please "@ || ascii_lower(word) == "the text "@ || ascii_lower(word)
            == "the content "@,
        all_ascii(word + c),
        plain_behind_verb(c),
    ensures
        without_courtesy(word + c) == Some(c),
        without_courtesy(c) == Some(c),
{
    let all = word + c;
    lemma_ascii_parts(word, c);
    assert(lowered(c) == ascii_lower(c));
    assert(lowered(all) == ascii_lower(word) + ascii_lower(c));
    assert(word.len() == ascii_lower(word).len());
    lemma_prefix_cut(word, c, "please "@);
    lemma_prefix_cut(word, c, "the text "@);
    lemma_prefix_cut(word, c, "the content "@);
    lemma_prefixes_differ(ascii_lower(all));
}

/// A prefix that stands there is cut, and the white space behind it; where it does not stand, nothing
/// is.
proof fn lemma_prefix_cut(word: Seq<char>, c: Seq<char>, prefix: Seq<char>)
    requires
        all_ascii(word + c),
        all_ascii(word),
        c.len() > 0,
        !is_space(c[0]),
    ensures
        ascii_lower(word) == prefix ==> begins(ascii_lower(word + c), prefix) && without_prefix(
            word + c,
            ascii_lower(word + c),
            prefix,
        ) == Some(c),
{
    let all = word + c;
    if ascii_lower(word) == prefix {
        let lower = ascii_lower(all);
        assert(lower.subrange(0, prefix.len() as int) =~= prefix) by {
            assert(lower =~= ascii_lower(word) + ascii_lower(c));
        }
        lemma_ascii_parts(word, c);
        lemma_ascii_bytes(prefix, 0);
        lemma_ascii_bytes(all, word.len() as int);
        assert(all.skip(word.len() as int) =~= c);
        assert(lead(c, CharClass::Space) == 0);
        assert(c.skip(0) =~= c);
    }
}

/// No text begins with two of the courtesies at once.
proof fn lemma_prefixes_differ(s: Seq<char>)
    ensures
        begins(s, "the text "@) ==> !begins(s, "please "@) && !begins(s, "the content "@),
        begins(s, "the content "@) ==> !begins(s, "please "@) && !begins(s, "the text "@),
{
    reveal_strlit("please ");
    reveal_strlit("the text ");
    reveal_strlit("the content ");
    if begins(s, "the text "@) {
        assert(s.subrange(0, 9)[0] == 't' && s.subrange(0, 9)[4] == 't');
    }
    if begins(s, "the content "@) {
        assert(s.subrange(0, 12)[0] == 't' && s.subrange(0, 12)[4] == 'c');
    }
    if begins(s, "please "@) {
        assert(s.subrange(0, 7)[0] == 'p');
    }
}

/// Content ends before the word "rein".
pub proof fn content_ends_before_rein(c: Seq<char>, word: Seq<char>, rest: Seq<char>)
    requires
        all_ascii(c + word + rest),
        ascii_lower(word) == " rein"@,
        forall|j: int| 0 <= j < c.len() ==> !occurs_at(ascii_lower(c + word + rest), " rein"@, j),
    ensures
        before_rein(c + word + rest, ascii_lower(c + word + rest)) == Some(c),
{
    let all = c + word + rest;
    let lower = ascii_lower(all);
    let n = c.len() as int;
    assert(word.len() == ascii_lower(word).len());
    assert(lower.subrange(n, n + " rein"@.len()) =~= ascii_lower(word));
    lemma_found_first(lower, " rein"@, n);
    assert(all =~= c + (word + rest));
    lemma_ascii_parts(c, word + rest);
    assert(lower.take(n) =~= ascii_lower(c));
    lemma_ascii_bytes(ascii_lower(c), 0);
    lemma_ascii_bytes(all, n);
    assert(all.take(n) =~= c);
}

/// Where neither verb stands in a request, no content is found behind one.
pub proof fn without_a_verb_there_is_no_content(request: Seq<char>)
    requires
        !holds(lowered(request), "write "@),
        !holds(lowered(request), "add "@),
    ensures
        followup_content(request) == Some(None::<Seq<char>>),
{
    lemma_last_at(lowered(request), "write "@);
    lemma_last_at(lowered(request), "add "@);
}

/// The text of a found content.
pub open spec fn found_text(o: Option<Option<String>>) -> Option<Option<Seq<char>>> {
    match o {
        Some(c) => Some(opt_text(c)),
        None => None,
    }
}

/// The rest found behind a marker.
pub open spec fn found_rest(o: Option<Option<&str>>) -> Option<Option<Seq<char>>> {
    match o {
        Some(Some(s)) => Some(Some(s@)),
        Some(None) => Some(None),
        None => None,
    }
}

/// The phrases that introduce content.
fn markers() -> (r: Vec<&'static str>)
    ensures
        str_texts(r@) == content_markers(),
{
    let r: Vec<&'static str> = vec![
        " with content ",
        " with the content ",
        " with text ",
        " with the text ",
        " content: ",
        " mit inhalt ",
        " mit dem inhalt ",
        " mit text ",
        " mit dem text ",
        " inhalt: ",
        " text: ",
    ];
    assert(str_texts(r@) =~= content_markers());
    r
}

/// The phrases that end content.
fn boundaries() -> (r: Vec<&'static str>)
    ensures
        str_texts(r@) == content_boundaries(),
{
    let r: Vec<&'static str> = vec![
        " and the name ",
        " and name ",
        " and filename ",
        " with the name ",
        " with name ",
        " named ",
        " into the file ",
        " into file ",
        " und dem namen ",
        " und den namen ",
        " und namen ",
        " und name ",
        " und dem dateinamen ",
        " und den dateinamen ",
        " mit dem namen ",
        " mit namen ",
        " namens ",
        " in die datei ",
        " in datei ",
    ];
    assert(str_texts(r@) =~= content_boundaries());
    r
}

/// The byte offset in a text in small letters at which content ends.
pub fn boundary_in_lowered(lower: &str) -> (r: Option<usize>)
    ensures
        match r {
            Some(b) => boundary(lower@) == Some(b as nat),
            None => boundary(lower@) is None,
        },
{
    let list = boundaries();
    let n: usize = list.len();
    let mut best: Option<usize> = None;
    let mut i: usize = 0;
    let ghost all = str_texts(list@);
    while i < n
        invariant
            i <= n == list@.len(),
            all == str_texts(list@),
            match best {
                Some(p) => first_phrase(lower@, all.take(i as int)) == Some(p as int) && p
                    <= lower@.len(),
                None => first_phrase(lower@, all.take(i as int)) is None,
            },
        decreases n - i,
    {
        assert(all.take(i + 1).drop_last() == all.take(i as int));
        assert(all.take(i + 1).last() == list@[i as int]@);
        if let Some(p) = find(lower, list[i]) {
            best = match best {
                Some(b) => if p < b {
                    Some(p)
                } else {
                    Some(b)
                },
                None => Some(p),
            };
        }
        i += 1;
    }
    assert(all.take(n as int) == all);
    match best {
        Some(p) => Some(byte_offset(lower, p)),
        None => None,
    }
}

/// The byte offset, in the form of `content` in small letters, at which content ends.
pub fn first_content_boundary(content: &str) -> (r: Option<usize>)
    ensures
        match r {
            Some(b) => boundary(lowered(content@)) == Some(b as nat),
            None => boundary(lowered(content@)) is None,
        },
{
    let lower = to_lowercase(content);
    boundary_in_lowered(lower.as_str())
}

/// `content` without white space, quotes and punctuation at either end; `None` where nothing is
/// left.
pub fn bare_content(content: &str) -> (r: Option<String>)
    ensures
        opt_text(r) == bare(content@),
{
    let c = trim_by(trim(content), CharClass::ContentEdge);
    if c.is_empty() {
        None
    } else {
        Some(c.to_owned())
    }
}

/// `content` up to the byte offset `cut`, where there is one.
pub fn cut_content(content: &str, cut: Option<usize>) -> (r: Option<&str>)
    ensures
        match r {
            Some(c) => match cut {
                Some(b) => char_at_byte(content@, b as int) is Some && c@ == content@.take(
                    char_at_byte(content@, b as int)->0,
                ),
                None => c@ == content@,
            },
            None => cut is Some && char_at_byte(content@, cut->0 as int) is None,
        },
{
    match cut {
        Some(b) => match char_index(content, b as u128) {
            Some(i) => Some(take_chars(content, i)),
            None => None,
        },
        None => Some(content),
    }
}

/// The content that a fragment of a request holds, or `None` where the fragment cannot be cut
/// there.
pub fn try_clean_content_fragment(fragment: &str) -> (r: Option<Option<String>>)
    ensures
        found_text(r) == fragment_content(fragment@),
{
    let content = trim(fragment);
    let cut = first_content_boundary(content);
    match cut_content(content, cut) {
        Some(c) => Some(bare_content(c)),
        None => None,
    }
}

/// The content that a fragment of a request holds.
pub fn clean_content_fragment(fragment: &str) -> (r: Option<String>)
    requires
        fragment_content(fragment@) is Some,
    ensures
        Some(opt_text(r)) == fragment_content(fragment@),
{
    let content = trim(fragment);
    let cut = first_content_boundary(content);
    match cut_content(content, cut) {
        Some(c) => bare_content(c),
        None => None,
    }
}

/// The rest of `request` behind a marker of length `len` that stands at `at` in `lower`.
fn rest_behind<'a>(request: &'a str, lower: &str, at: usize, marker: &str) -> (r: Option<&'a str>)
    requires
        at <= lower@.len(),
    ensures
        match r {
            Some(s) => match char_at_byte(
                request@,
                (byte_len(lower@.take(at as int)) + byte_len(marker@)) as int,
            ) {
                Some(j) => s@ == request@.skip(j),
                None => false,
            },
            None => char_at_byte(
                request@,
                (byte_len(lower@.take(at as int)) + byte_len(marker@)) as int,
            ) is None,
        },
{
    let width: usize = marker.unicode_len();
    assert(marker@.take(width as int) == marker@);
    let start: u128 = byte_offset(lower, at) as u128 + byte_offset(marker, width) as u128;
    match char_index(request, start) {
        Some(j) => Some(skip_chars(request, j)),
        None => None,
    }
}

/// The rest of a request behind the first of the phrases that introduce content, found in the
/// request's form in small letters.
pub fn content_rest<'a>(request: &'a str, lower: &str) -> (r: Option<Option<&'a str>>)
    ensures
        found_rest(r) == after_marker(request@, lower@, content_markers()),
{
    let list = markers();
    let n: usize = list.len();
    let mut i: usize = 0;
    let ghost all = str_texts(list@);
    assert(all.skip(0) == all);
    while i < n
        invariant
            i <= n == list@.len(),
            all == str_texts(list@),
            all == content_markers(),
            after_marker(request@, lower@, all) == after_marker(
                request@,
                lower@,
                all.skip(i as int),
            ),
        decreases n - i,
    {
        assert(all.skip(i as int)[0] == list@[i as int]@);
        if let Some(at) = find(lower, list[i]) {
            return match rest_behind(request, lower, at, list[i]) {
                Some(rest) => Some(Some(rest)),
                None => None,
            };
        }
        assert(all.skip(i as int).skip(1) == all.skip(i + 1));
        i += 1;
    }
    Some(None)
}

/// The content that a request gives behind a marker, or `None` where the request cannot be cut
/// there.
pub fn try_extract_requested_file_content(user_request: &str) -> (r: Option<Option<String>>)
    ensures
        found_text(r) == requested_content(user_request@),
{
    let lower = to_lowercase(user_request);
    match content_rest(user_request, lower.as_str()) {
        None => None,
        Some(None) => Some(None),
        Some(Some(rest)) => try_clean_content_fragment(rest),
    }
}

/// The content that a request gives behind a marker.
pub fn extract_requested_file_content(user_request: &str) -> (r: Option<String>)
    requires
        requested_content(user_request@) is Some,
    ensures
        Some(opt_text(r)) == requested_content(user_request@),
{
    let lower = to_lowercase(user_request);
    match content_rest(user_request, lower.as_str()) {
        Some(Some(rest)) => clean_content_fragment(rest),
        _ => None,
    }
}

/// `content` without `prefix` and the white space behind it, where its form in small letters
/// begins with `prefix`.
pub fn strip_lowered_prefix<'a>(content: &'a str, lower: &str, prefix: &str) -> (r: Option<&'a str>)
    ensures
        match r {
            Some(s) => without_prefix(content@, lower@, prefix@) == Some(s@),
            None => without_prefix(content@, lower@, prefix@) is None,
        },
{
    if starts_with(lower, prefix) {
        let width: usize = prefix.unicode_len();
        assert(prefix@.take(width as int) == prefix@);
        match char_index(content, byte_offset(prefix, width) as u128) {
            Some(i) => Some(trim_start_by(skip_chars(content, i), CharClass::Space)),
            None => None,
        }
    } else {
        Some(content)
    }
}

/// `content` without the words "into it" at its end, and the punctuation behind them.
pub fn cut_before_it(content: &str) -> (r: &str)
    ensures
        r@ == before_it(content@),
{
    let bare = trim_end_by(content, CharClass::ContentEdge);
    let lower = to_ascii_lower(bare);
    if ends_with(lower.as_str(), " into it") {
        proof {
            reveal_strlit(" into it");
        }
        let n: usize = bare.unicode_len();
        assert(ascii_lower(bare@).len() == bare@.len());
        take_chars(bare, n - 8)
    } else {
        content
    }
}

/// `content` up to the word "rein", found in its form in small letters.
pub fn cut_before_rein<'a>(content: &'a str, lower: &str) -> (r: Option<&'a str>)
    ensures
        match r {
            Some(s) => before_rein(content@, lower@) == Some(s@),
            None => before_rein(content@, lower@) is None,
        },
{
    match find(lower, " rein") {
        None => Some(content),
        Some(i) => match char_index(content, byte_offset(lower, i) as u128) {
            Some(j) => Some(take_chars(content, j)),
            None => None,
        },
    }
}

/// The rest of a request behind the last `marker` in its form in small letters.
fn last_marker_rest<'a>(request: &'a str, lower: &str, marker: &str) -> (r: Option<Option<&'a str>>)
    ensures
        found_rest(r) == after_last_marker(request@, lower@, marker@),
{
    match rfind(lower, marker) {
        None => Some(None),
        Some(at) => match rest_behind(request, lower, at, marker) {
            Some(rest) => Some(Some(rest)),
            None => None,
        },
    }
}

/// The rest of a request behind the last "write", or else behind the last "add", found in the
/// request's form in small letters.
pub fn verb_rest<'a>(request: &'a str, lower: &str) -> (r: Option<Option<&'a str>>)
    ensures
        found_rest(r) == after_verb(request@, lower@),
{
    match last_marker_rest(request, lower, "write ") {
        None => None,
        Some(Some(rest)) => Some(Some(rest)),
        Some(None) => last_marker_rest(request, lower, "add "),
    }
}

/// `content` without the courtesies it may begin with.
fn strip_courtesy(content: &str) -> (r: Option<&str>)
    ensures
        match r {
            Some(s) => without_courtesy(content@) == Some(s@),
            None => without_courtesy(content@) is None,
        },
{
    let lower = to_lowercase(content);
    match strip_lowered_prefix(content, lower.as_str(), "please ") {
        None => None,
        Some(a) => {
            let lower = to_lowercase(a);
            match strip_lowered_prefix(a, lower.as_str(), "the text ") {
                None => None,
                Some(b) => {
                    let lower = to_lowercase(b);
                    strip_lowered_prefix(b, lower.as_str(), "the content ")
                },
            }
        },
    }
}

/// The content that a request gives behind "write" or "add", or `None` where the request cannot
/// be cut there.
pub fn try_extract_followup_write_content(user_request: &str) -> (r: Option<Option<String>>)
    ensures
        found_text(r) == followup_content(user_request@),
{
    let lower = to_lowercase(user_request);
    match verb_rest(user_request, lower.as_str()) {
        None => None,
        Some(None) => Some(None),
        Some(Some(rest)) => match strip_courtesy(trim(rest)) {
            None => None,
            Some(whole) => {
                let content = cut_before_it(whole);
                let lower = to_lowercase(content);
                match cut_before_rein(content, lower.as_str()) {
                    None => None,
                    Some(part) => try_clean_content_fragment(part),
                }
            },
        },
    }
}

/// The content that a request gives behind "write" or "add".
pub fn extract_followup_write_content(user_request: &str) -> (r: Option<String>)
    requires
        followup_content(user_request@) is Some,
    ensures
        Some(opt_text(r)) == followup_content(user_request@),
{
    let lower = to_lowercase(user_request);
    match verb_rest(user_request, lower.as_str()) {
        Some(Some(rest)) => match strip_courtesy(trim(rest)) {
            Some(whole) => {
                let content = cut_before_it(whole);
                let lower = to_lowercase(content);
                match cut_before_rein(content, lower.as_str()) {
                    Some(part) => clean_content_fragment(part),
                    None => None,
                }
            },
            None => None,
        },
        _ => None,
    }
}

} // verus!
