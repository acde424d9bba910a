//! Finding the JSON object in what a model said.

use vstd::prelude::*;
use crate::answer::{shortened, truncate_text};
use crate::prompts::lemma_holds_middle;
use crate::text::{
    char_replaced, chars_of, find, first_at, holds, lemma_char_swapped, lemma_first_at,
    lemma_found_first, occurs_at, only, opt_text, replace_char, string_of, text_is, texts, trim,
    trimmed,
};

verus! {

/// Where, behind `i`, the object ends that is open `depth` times: the position behind its last
/// brace. Braces inside strings do not count; a backslash in a string takes the next character
/// its meaning.
pub open spec fn object_end(
    s: Seq<char>,
    i: int,
    depth: int,
    in_string: bool,
    escaped: bool,
) -> Option<int>
    decreases s.len() - i,
{
    if i < 0 || i >= s.len() {
        None
    } else if in_string {
        if escaped {
            object_end(s, i + 1, depth, true, false)
        } else if s[i] == '\\' {
            object_end(s, i + 1, depth, true, true)
        } else if s[i] == '"' {
            object_end(s, i + 1, depth, false, false)
        } else {
            object_end(s, i + 1, depth, true, false)
        }
    } else if s[i] == '"' {
        object_end(s, i + 1, depth, true, false)
    } else if s[i] == '{' {
        object_end(s, i + 1, depth + 1, false, false)
    } else if s[i] == '}' {
        if depth <= 1 {
            Some(i + 1)
        } else {
            object_end(s, i + 1, depth - 1, false, false)
        }
    } else {
        object_end(s, i + 1, depth, false, false)
    }
}

/// The first object in `s`: from the first opening brace to the brace that closes it.
pub open spec fn first_object(s: Seq<char>) -> Option<Seq<char>> {
    match first_at(s, "{"@) {
        None => None,
        Some(a) => match object_end(s, a + 1, 1, false, false) {
            None => None,
            Some(b) => Some(s.subrange(a, b)),
        },
    }
}

/// The end of an object lies behind where the search began, at a closing brace, and is found
/// as well where the text begins elsewhere and ends right there.
proof fn lemma_object_end(s: Seq<char>, i: int, depth: int, in_string: bool, escaped: bool, a: int)
    requires
        0 <= a <= i,
    ensures
        match object_end(s, i, depth, in_string, escaped) {
            Some(b) => i < b <= s.len() && s[b - 1] == '}' && object_end(
                s.subrange(a, b),
                i - a,
                depth,
                in_string,
                escaped,
            ) == Some(b - a),
            None => true,
        },
    decreases s.len() - i,
{
    if i < s.len() {
        let c = s[i];
        let next = if in_string {
            if escaped {
                (depth, true, false)
            } else if c == '\\' {
                (depth, true, true)
            } else if c == '"' {
                (depth, false, false)
            } else {
                (depth, true, false)
            }
        } else if c == '"' {
            (depth, true, false)
        } else if c == '{' {
            (depth + 1, false, false)
        } else if c == '}' {
            (depth - 1, false, false)
        } else {
            (depth, false, false)
        };
        if !in_string && c == '}' && depth <= 1 {
            let t = s.subrange(a, i + 1);
            assert(t[i - a] == c);
        } else {
            lemma_object_end(s, i + 1, next.0, next.1, next.2, a);
            match object_end(s, i + 1, next.0, next.1, next.2) {
                Some(b) => {
                    let t = s.subrange(a, b);
                    assert(t[i - a] == c);
                },
                None => {},
            }
        }
    }
}

/// What is found as the first object begins and ends with a brace, and is its own first object.
pub proof fn first_object_is_whole(s: Seq<char>)
    ensures
        match first_object(s) {
            Some(t) => t.len() >= 2 && t[0] == '{' && t.last() == '}' && first_object(t) == Some(t),
            None => true,
        },
{
    reveal_strlit("{");
    lemma_first_at(s, "{"@);
    match first_at(s, "{"@) {
        Some(a) => {
            lemma_object_end(s, a + 1, 1, false, false, a);
            assert(s.subrange(a, a + 1)[0] == '{');
            assert(s[a] == '{');
            match object_end(s, a + 1, 1, false, false) {
                Some(b) => {
                    let t = s.subrange(a, b);
                    lemma_first_at(t, "{"@);
                    assert(t.subrange(0, 1) =~= "{"@);
                    assert(first_at(t, "{"@) == Some(0int));
                    assert(t.subrange(0, b - a) =~= t);
                },
                None => {},
            }
        },
        None => {},
    }
}

/// No quote and no brace.
pub open spec fn plain_json(c: char) -> bool {
    c != '"' && c != '{' && c != '}'
}

/// The end of an object lies behind what holds neither quotes nor braces.
proof fn lemma_behind_plain(s: Seq<char>, i: int, j: int, depth: int)
    requires
        0 <= i <= j <= s.len(),
        forall|k: int| i <= k < j ==> plain_json(#[trigger] s[k]),
    ensures
        object_end(s, i, depth, false, false) == object_end(s, j, depth, false, false),
    decreases j - i,
{
    if i < j {
        assert(plain_json(s[i]));
        lemma_behind_plain(s, i + 1, j, depth);
    }
}

/// The end of an object that a string stands open in lies behind what holds neither quotes nor
/// backslashes.
proof fn lemma_behind_string(s: Seq<char>, i: int, j: int, depth: int)
    requires
        0 <= i <= j <= s.len(),
        forall|k: int| i <= k < j ==> #[trigger] s[k] != '"' && s[k] != '\\',
    ensures
        object_end(s, i, depth, true, false) == object_end(s, j, depth, true, false),
    decreases j - i,
{
    if i < j {
        assert(s[i] != '"');
        lemma_behind_string(s, i + 1, j, depth);
    }
}

/// The first object of a text begins at the first brace, and where its end is known, it is all up to
/// there.
proof fn lemma_object_found(front: Seq<char>, object: Seq<char>, behind: Seq<char>)
    requires
        !front.contains('{'),
        object.len() > 0,
        object[0] == '{',
        object_end(front + object + behind, front.len() as int + 1, 1, false, false) == Some(
            front.len() + object.len() as int,
        ),
    ensures
        first_object(front + object + behind) == Some(object),
{
    reveal_strlit("{");
    let s = front + object + behind;
    let n = front.len() as int;
    assert(s[n] == object[0]);
    assert(s.subrange(n, n + 1) =~= "{"@);
    assert forall|j: int| 0 <= j < n implies !occurs_at(s, "{"@, j) by {
        if occurs_at(s, "{"@, j) {
            assert(s.subrange(j, j + 1)[0] == '{');
            assert(front.contains(front[j]));
        }
    }
    lemma_found_first(s, "{"@, n);
    assert(s.subrange(n, n + object.len()) =~= object);
}

/// Whatever a model says around it, the object is found: from the first opening brace to the brace
/// that closes it, where braces inside of it belong to each other.
pub proof fn objects_are_found(
    front: Seq<char>,
    a: Seq<char>,
    inner: Seq<char>,
    b: Seq<char>,
    behind: Seq<char>,
)
    requires
        !front.contains('{'),
        only(a, |c: char| plain_json(c)),
        only(inner, |c: char| plain_json(c)),
        only(b, |c: char| plain_json(c)),
    ensures
        ({
            let flat = seq!['{'] + a + seq!['}'];
            first_object(front + flat + behind) == Some(flat)
        }),
        ({
            let nested = seq!['{'] + a + seq!['{'] + inner + seq!['}'] + b + seq!['}'];
            first_object(front + nested + behind) == Some(nested)
        }),
        first_object(front) is None,
{
    let p = |c: char| plain_json(c);
    let n = front.len() as int;
    let flat = seq!['{'] + a + seq!['}'];
    let s = front + flat + behind;
    assert forall|k: int| n + 1 <= k < n + 1 + a.len() implies plain_json(#[trigger] s[k]) by {
        assert(p(a[k - n - 1]));
    }
    lemma_behind_plain(s, n + 1, n + 1 + a.len(), 1);
    assert(s[n + 1 + a.len()] == '}');
    lemma_object_found(front, flat, behind);
    lemma_nested(front, a, inner, b, behind);
    reveal_strlit("{");
    lemma_first_at(front, "{"@);
    match first_at(front, "{"@) {
        Some(j) => {
            assert(front.subrange(j, j + 1)[0] == '{');
            assert(front.contains(front[j]));
        },
        None => {},
    }
}

/// An object in an object.
#[verifier::rlimit(40)]
proof fn lemma_nested(
    front: Seq<char>,
    a: Seq<char>,
    inner: Seq<char>,
    b: Seq<char>,
    behind: Seq<char>,
)
    requires
        !front.contains('{'),
        only(a, |c: char| plain_json(c)),
        only(inner, |c: char| plain_json(c)),
        only(b, |c: char| plain_json(c)),
    ensures
        ({
            let nested = seq!['{'] + a + seq!['{'] + inner + seq!['}'] + b + seq!['}'];
            first_object(front + nested + behind) == Some(nested)
        }),
{
    let p = |c: char| plain_json(c);
    let n = front.len() as int;
    let nested = seq!['{'] + a + seq!['{'] + inner + seq!['}'] + b + seq!['}'];
    let s = front + nested + behind;
    let i = n + 1 + a.len();
    let j = i + 1 + inner.len();
    let k = j + 1 + b.len();
    assert forall|x: int| n + 1 <= x < i implies plain_json(#[trigger] s[x]) by {
        assert(p(a[x - n - 1]));
    }
    assert(s[i] == '{');
    assert forall|x: int| i + 1 <= x < j implies plain_json(#[trigger] s[x]) by {
        assert(p(inner[x - i - 1]));
    }
    assert(s[j] == '}');
    assert forall|x: int| j + 1 <= x < k implies plain_json(#[trigger] s[x]) by {
        assert(p(b[x - j - 1]));
    }
    assert(s[k] == '}');
    lemma_behind_plain(s, n + 1, i, 1);
    lemma_behind_plain(s, i + 1, j, 2);
    lemma_behind_plain(s, j + 1, k, 1);
    assert(object_end(s, k, 1, false, false) == Some(k + 1));
    assert(object_end(s, j, 2, false, false) == object_end(s, j + 1, 1, false, false));
    assert(object_end(s, i, 1, false, false) == object_end(s, i + 1, 2, false, false));
    lemma_object_found(front, nested, behind);
}

/// What stands in a string does not end an object: neither a brace nor a quote behind a backslash.
#[verifier::rlimit(40)]
pub proof fn braces_in_strings_do_not_count(
    front: Seq<char>,
    a: Seq<char>,
    text: Seq<char>,
    c: char,
    more: Seq<char>,
    b: Seq<char>,
    behind: Seq<char>,
)
    requires
        !front.contains('{'),
        only(a, |x: char| plain_json(x)),
        only(text, |x: char| x != '"' && x != '\\'),
        only(more, |x: char| x != '"' && x != '\\'),
        only(b, |x: char| plain_json(x)),
    ensures
        ({
            let object = seq!['{'] + a + seq!['"'] + text + seq!['\\', c] + more + seq!['"'] + b
                + seq!['}'];
            first_object(front + object + behind) == Some(object)
        }),
{
    let p = |x: char| plain_json(x);
    let q = |x: char| x != '"' && x != '\\';
    let n = front.len() as int;
    let object = seq!['{'] + a + seq!['"'] + text + seq!['\\', c] + more + seq!['"'] + b + seq!['}'];
    let s = front + object + behind;
    let i = n + 1 + a.len();
    let j = i + 1 + text.len();
    let k = j + 2 + more.len();
    let l = k + 1 + b.len();
    assert forall|x: int| n + 1 <= x < i implies plain_json(#[trigger] s[x]) by {
        assert(p(a[x - n - 1]));
    }
    assert(s[i] == '"');
    assert forall|x: int| i + 1 <= x < j implies #[trigger] s[x] != '"' && s[x] != '\\' by {
        assert(q(text[x - i - 1]));
    }
    assert(s[j] == '\\');
    assert forall|x: int| j + 2 <= x < k implies #[trigger] s[x] != '"' && s[x] != '\\' by {
        assert(q(more[x - j - 2]));
    }
    assert(s[k] == '"');
    assert forall|x: int| k + 1 <= x < l implies plain_json(#[trigger] s[x]) by {
        assert(p(b[x - k - 1]));
    }
    assert(s[l] == '}');
    lemma_behind_plain(s, n + 1, i, 1);
    lemma_behind_string(s, i + 1, j, 1);
    lemma_behind_string(s, j + 2, k, 1);
    lemma_behind_plain(s, k + 1, l, 1);
    assert(object_end(s, l, 1, false, false) == Some(l + 1));
    assert(object_end(s, k, 1, true, false) == object_end(s, k + 1, 1, false, false));
    assert(object_end(s, j + 1, 1, true, true) == object_end(s, j + 2, 1, true, false));
    assert(object_end(s, j, 1, true, false) == object_end(s, j + 1, 1, true, true));
    assert(object_end(s, i, 1, false, false) == object_end(s, i + 1, 1, true, false));
    lemma_object_found(front, object, behind);
}

/// The first JSON object in `text`.
pub fn extract_first_json_object(text: &str) -> (r: Option<String>)
    ensures
        opt_text(r) == first_object(text@),
{
    let start: usize = match find(text, "{") {
        Some(i) => i,
        None => {
            return None;
        },
    };
    let v = chars_of(text);
    let n: usize = v.len();
    proof {
        reveal_strlit("{");
    }
    let mut i: usize = start + 1;
    let mut depth: usize = 1;
    let mut in_string = false;
    let mut escaped = false;
    while i < n
        invariant
            start < i <= n,
            n == v@.len(),
            v@ == text@,
            first_at(text@, "{"@) == Some(start as int),
            1 <= depth <= i,
            object_end(v@, start + 1, 1, false, false) == object_end(
                v@,
                i as int,
                depth as int,
                in_string,
                escaped,
            ),
        decreases n - i,
    {
        let c = v[i];
        if in_string {
            if escaped {
                escaped = false;
            } else if c == '\\' {
                escaped = true;
            } else if c == '"' {
                in_string = false;
            }
        } else {
            escaped = false;
            if c == '"' {
                in_string = true;
            } else if c == '{' {
                depth += 1;
            } else if c == '}' {
                if depth == 1 {
                    return Some(string_of(&v, start, i + 1));
                }
                depth -= 1;
            }
        }
        i += 1;
    }
    None
}

/// `s` with every backslash turned into a slash.
pub open spec fn slashed(s: Seq<char>) -> Seq<char> {
    char_replaced(s, '\\', "/"@)
}

/// The texts in which a set of file actions is looked for, in the order in which they are tried:
/// all that the model said, the same with slashes for backslashes, then the first object in it,
/// first with slashes and then as it stands.
pub open spec fn envelope_candidates(raw: Seq<char>) -> Seq<Seq<char>> {
    let whole = trimmed(raw);
    let first = if slashed(whole) == whole {
        seq![whole]
    } else {
        seq![whole, slashed(whole)]
    };
    match first_object(whole) {
        Some(object) => first + seq![slashed(object), object],
        None => first,
    }
}

/// The texts in which a decision of the coordinator is looked for, in order.
pub open spec fn decision_candidates(raw: Seq<char>) -> Seq<Seq<char>> {
    let whole = trimmed(raw);
    match first_object(whole) {
        Some(object) => seq![whole, object],
        None => seq![whole],
    }
}

/// The texts in which a set of file actions is looked for, in the order in which they are tried.
pub fn envelope_texts(raw: &str) -> (r: Vec<String>)
    ensures
        texts(r@) == envelope_candidates(raw@),
{
    let whole = trim(raw);
    let fixed = replace_char(whole, '\\', "/");
    let mut out: Vec<String> = Vec::new();
    out.push(whole.to_owned());
    if !text_is(fixed.as_str(), whole) {
        out.push(fixed);
    }
    let ghost first = if slashed(whole@) == whole@ {
        seq![whole@]
    } else {
        seq![whole@, slashed(whole@)]
    };
    assert(texts(out@) =~= first);
    if let Some(object) = extract_first_json_object(whole) {
        let ghost found = object@;
        out.push(replace_char(object.as_str(), '\\', "/"));
        out.push(object);
        assert(texts(out@) =~= first + seq![slashed(found), found]);
    }
    out
}

/// The texts in which a decision of the coordinator is looked for, in order.
pub fn decision_texts(raw: &str) -> (r: Vec<String>)
    ensures
        texts(r@) == decision_candidates(raw@),
{
    let whole = trim(raw);
    let mut out: Vec<String> = Vec::new();
    out.push(whole.to_owned());
    match extract_first_json_object(whole) {
        Some(object) => {
            let ghost found = object@;
            out.push(object);
            assert(texts(out@) =~= seq![whole@, found]);
        },
        None => {
            assert(texts(out@) =~= seq![whole@]);
        },
    }
    out
}

/// The error where no text yields a set of file actions; `last_error` is what the parser says of
/// the last one.
pub open spec fn envelope_failure(raw: Seq<char>, last_error: Seq<char>) -> Seq<char> {
    match first_object(trimmed(raw)) {
        Some(object) => "JSON parser error: "@ + last_error + "\nJSON start:\n"@ + shortened(
            object,
            600,
        ),
        None => "no JSON block found"@,
    }
}

/// The error where no text yields a decision; `last_error` is what the parser says of the last
/// one.
pub open spec fn decision_failure(raw: Seq<char>, last_error: Seq<char>) -> Seq<char> {
    match first_object(trimmed(raw)) {
        Some(_) => "Coordinator JSON parser error: "@ + last_error,
        None => "no coordinator decision found"@,
    }
}

/// The error where no text yields a set of file actions.
pub fn envelope_error(raw: &str, last_error: &str) -> (r: String)
    ensures
        r@ == envelope_failure(raw@, last_error@),
{
    match extract_first_json_object(trim(raw)) {
        Some(object) => {
            let mut out: String = "JSON parser error: ".to_owned();
            out.append(last_error);
            out.append("\nJSON start:\n");
            out.append(truncate_text(object.as_str(), 600).as_str());
            out
        },
        None => "no JSON block found".to_owned(),
    }
}

/// The error where no text yields a decision.
pub fn decision_error(raw: &str, last_error: &str) -> (r: String)
    ensures
        r@ == decision_failure(raw@, last_error@),
{
    match extract_first_json_object(trim(raw)) {
        Some(_) => {
            let mut out: String = "Coordinator JSON parser error: ".to_owned();
            out.append(last_error);
            out
        },
        None => "no coordinator decision found".to_owned(),
    }
}

/// Every backslash becomes a slash and nothing else changes; what a model said is tried in that form
/// too, and so is its first object; and the errors say what the parser said.
pub proof fn slashes_are_tried_for_backslashes(raw: Seq<char>, last_error: Seq<char>, i: int)
    ensures
        slashed(raw).len() == raw.len(),
        0 <= i < raw.len() ==> slashed(raw)[i] == if raw[i] == '\\' {
            '/'
        } else {
            raw[i]
        },
        envelope_candidates(raw).contains(slashed(trimmed(raw))),
        first_object(trimmed(raw)) matches Some(object) ==> {
            &&& envelope_candidates(raw).contains(slashed(object))
            &&& holds(envelope_failure(raw, last_error), last_error)
            &&& holds(decision_failure(raw, last_error), last_error)
        },
{
    reveal_strlit("/");
    lemma_char_swapped(raw, '\\', "/"@);
    let whole = trimmed(raw);
    let all = envelope_candidates(raw);
    if slashed(whole) == whole {
        assert(all[0] == slashed(whole));
    } else {
        assert(all[1] == slashed(whole));
    }
    match first_object(whole) {
        Some(object) => {
            assert(all[all.len() - 2] == slashed(object));
            let none = Seq::<char>::empty();
            let tail = "\nJSON start:\n"@ + shortened(object, 600);
            lemma_holds_middle("JSON parser error: "@, last_error, tail);
            assert("JSON parser error: "@ + last_error + tail =~= envelope_failure(raw, last_error));
            lemma_holds_middle("Coordinator JSON parser error: "@, last_error, none);
            assert("Coordinator JSON parser error: "@ + last_error + none =~= decision_failure(
                raw,
                last_error,
            ));
        },
        None => {},
    }
}

/// Whatever a model said, the texts that are tried begin with all of it, without the white space
/// around it, and each further one is made of that text or of the first object in it.
pub proof fn candidates_begin_with_the_whole(raw: Seq<char>)
    ensures
        envelope_candidates(raw).len() >= 1,
        envelope_candidates(raw)[0] == trimmed(raw),
        decision_candidates(raw)[0] == trimmed(raw),
        first_object(trimmed(raw)) matches Some(object) ==> envelope_candidates(raw).last()
            == object && decision_candidates(raw).last() == object,
{
}

} // verus!
