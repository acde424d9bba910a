//! Which paths a file action may name.

use vstd::prelude::*;
use crate::chars::{ascii_small, is_space, CharClass};
use crate::layout::{first_existing, first_there};
use crate::text::{
    ascii_lower, char_replaced, chars_of, ends, last_at, lead, lemma_char_replaced_add,
    lemma_char_replaced_none, lemma_char_replaced_only, lemma_char_swapped, lemma_found_last,
    lemma_last_at, lemma_trimmed_bare, lemma_trimmed_part, occurs_at, only, only_the_edges_are_trimmed,
    replace_char, rfind, skip_chars, text_is, texts, to_ascii_lower, trim, trim_by, trimmed,
    trimmed_by,
};

verus! {

/// A component of a path.
#[derive(Clone, Copy, Debug, PartialEq, Eq, Structural)]
pub enum PathPart {
    /// A drive or a share.
    Prefix,
    /// The root of the file system.
    Root,
    /// The folder itself.
    Current,
    /// The folder above.
    Parent,
    /// A name.
    Normal,
}

/// What the file system says of a path that a file action names.
#[derive(Debug)]
pub struct PathFacts {
    /// Whether the path is absolute.
    pub absolute: bool,
    /// The components of the path.
    pub parts: Vec<PathPart>,
    /// The names that make up the project folder.
    pub root: Vec<String>,
    /// The names that make up the deepest folder on the way to the target that exists, with links
    /// resolved, or why they could not be told.
    pub parent: Result<Vec<String>, String>,
}

/// The text of a path without the quotes around it and without line breaks, with slashes for
/// backslashes, and with `/t` for a tab: a careless decoding makes a tab of a backslash and a `t`.
pub open spec fn path_text(raw: Seq<char>) -> Seq<char> {
    let bare = trimmed_by(trimmed_by(trimmed(raw), CharClass::Quote), CharClass::Apostrophe);
    let slashes = char_replaced(bare, '\\', "/"@);
    let tabs = char_replaced(slashes, '\t', "/t"@);
    trimmed(char_replaced(char_replaced(tabs, '\r', ""@), '\n', ""@))
}

/// A component that a path may have: names, the folder itself, and, where the path is absolute,
/// what makes it so.
pub open spec fn allowed(part: PathPart, absolute: bool) -> bool {
    match part {
        PathPart::Normal | PathPart::Current => true,
        PathPart::Parent => false,
        PathPart::Prefix | PathPart::Root => absolute,
    }
}

/// The first component that a path may not have.
pub open spec fn first_blocked(parts: Seq<PathPart>, absolute: bool) -> Option<PathPart>
    decreases parts.len(),
{
    if parts.len() == 0 {
        None
    } else if allowed(parts[0], absolute) {
        first_blocked(parts.skip(1), absolute)
    } else {
        Some(parts[0])
    }
}

/// The characters from `a` to `b` are what stands between two slashes, or between a slash and an end
/// of the text.
pub open spec fn is_segment(text: Seq<char>, a: int, b: int) -> bool {
    &&& 0 <= a <= b <= text.len()
    &&& a == 0 || text[a - 1] == '/'
    &&& b == text.len() || text[b] == '/'
    &&& forall|i: int| a <= i < b ==> #[trigger] text[i] != '/'
}

/// A `..` stands between the slashes of a path.
pub open spec fn climbs(text: Seq<char>) -> bool {
    exists|a: int, b: int| #[trigger] is_segment(text, a, b) && text.subrange(a, b) == ".."@
}

/// The error for the components of a path, and for a `..` in its text that is none of them.
pub open spec fn blocked_error(text: Seq<char>, parts: Seq<PathPart>, absolute: bool) -> Option<
    Seq<char>,
> {
    match first_blocked(parts, absolute) {
        None => if climbs(text) {
            Some("Paths with '..' are blocked: "@ + text)
        } else {
            None
        },
        Some(PathPart::Parent) => Some("Paths with '..' are blocked: "@ + text),
        Some(_) => Some("Non-relative path is blocked: "@ + text),
    }
}

/// The folder `inner` is `outer` or lies below it.
pub open spec fn within(outer: Seq<Seq<char>>, inner: Seq<Seq<char>>) -> bool {
    outer.len() <= inner.len() && inner.take(outer.len() as int) == outer
}

/// What becomes of a path that a file action names: its text, or why it is refused.
pub open spec fn path_verdict(raw: Seq<char>, facts: PathFacts) -> Result<Seq<char>, Seq<char>> {
    let text = path_text(raw);
    if text.len() == 0 {
        Err("Empty file path is not allowed."@)
    } else if blocked_error(text, facts.parts@, facts.absolute) is Some {
        Err(blocked_error(text, facts.parts@, facts.absolute)->0)
    } else {
        match facts.parent {
            Err(e) => Err("Target path could not be checked: "@ + e@),
            Ok(parent) => if within(texts(facts.root@), texts(parent@)) {
                Ok(text)
            } else if facts.absolute {
                Err("Absolute path is outside the project folder: "@ + text)
            } else {
                Err("Target is outside the project folder: "@ + text)
            },
        }
    }
}

/// What a checked path says.
pub open spec fn verdict_view(r: Result<String, String>) -> Result<Seq<char>, Seq<char>> {
    match r {
        Ok(s) => Ok(s@),
        Err(e) => Err(e@),
    }
}

/// A path that is let through leads into the project folder and never climbs: no `..` stands in
/// its text or among its components, and if it is relative, neither a root nor a drive is one of
/// them.
pub proof fn accepted_paths_stay_inside(raw: Seq<char>, facts: PathFacts)
    requires
        path_verdict(raw, facts) is Ok,
    ensures
        facts.parent is Ok,
        within(texts(facts.root@), texts(facts.parent->Ok_0@)),
        !climbs(path_text(raw)),
        forall|i: int|
            0 <= i < facts.parts@.len() ==> allowed(#[trigger] facts.parts@[i], facts.absolute),
{
    lemma_first_blocked(facts.parts@, facts.absolute);
}

/// Where nothing is blocked, every component is allowed.
proof fn lemma_first_blocked(parts: Seq<PathPart>, absolute: bool)
    ensures
        first_blocked(parts, absolute) is None ==> forall|i: int|
            0 <= i < parts.len() ==> allowed(#[trigger] parts[i], absolute),
    decreases parts.len(),
{
    if parts.len() > 0 && first_blocked(parts, absolute) is None {
        lemma_first_blocked(parts.skip(1), absolute);
        assert forall|i: int| 0 <= i < parts.len() implies allowed(
            #[trigger] parts[i],
            absolute,
        ) by {
            if i > 0 {
                assert(parts.skip(1)[i - 1] == parts[i]);
            }
        }
    }
}

/// A path is let through exactly where its text is not empty and holds no `..` between its slashes,
/// no component leads up and none but those of an absolute path makes it one, and the deepest folder
/// on its way that exists is known and lies in the project folder. It is let through as its text.
#[verifier::rlimit(40)]
pub proof fn paths_inside_are_let_through(raw: Seq<char>, facts: PathFacts)
    ensures
        path_verdict(raw, facts) is Ok <==> {
            &&& path_text(raw).len() > 0
            &&& !climbs(path_text(raw))
            &&& forall|i: int|
                0 <= i < facts.parts@.len() ==> !(#[trigger] facts.parts@[i] is Parent) && ((
                facts.parts@[i] is Root || facts.parts@[i] is Prefix) ==> facts.absolute)
            &&& facts.parent matches Ok(parent) && facts.root@.len() <= parent@.len() && forall|i: int|
                0 <= i < facts.root@.len() ==> (#[trigger] facts.root@[i])@ == parent@[i]@
        },
        path_verdict(raw, facts) matches Ok(text) ==> text == path_text(raw),
{
    lemma_first_blocked(facts.parts@, facts.absolute);
    lemma_nothing_blocked(facts.parts@, facts.absolute);
    match facts.parent {
        Ok(parent) => {
            let a = texts(facts.root@);
            let b = texts(parent@);
            if a.len() <= b.len() {
                if forall|i: int|
                    0 <= i < facts.root@.len() ==> (#[trigger] facts.root@[i])@ == parent@[i]@ {
                    assert forall|i: int| 0 <= i < a.len() implies a[i] == b[i] by {
                        assert(facts.root@[i]@ == parent@[i]@);
                    }
                    assert(b.take(a.len() as int) =~= a);
                }
                if within(a, b) {
                    assert forall|i: int| 0 <= i < facts.root@.len() implies (
                    #[trigger] facts.root@[i])@ == parent@[i]@ by {
                        assert(a[i] == b.take(a.len() as int)[i]);
                    }
                }
            }
        },
        Err(_) => {},
    }
    if forall|i: int|
        0 <= i < facts.parts@.len() ==> !(#[trigger] facts.parts@[i] is Parent) && ((
        facts.parts@[i] is Root || facts.parts@[i] is Prefix) ==> facts.absolute) {
        assert forall|i: int| 0 <= i < facts.parts@.len() implies allowed(
            #[trigger] facts.parts@[i],
            facts.absolute,
        ) by {}
    }
}

/// Where every component is allowed, nothing is blocked.
proof fn lemma_nothing_blocked(parts: Seq<PathPart>, absolute: bool)
    ensures
        (forall|i: int| 0 <= i < parts.len() ==> allowed(#[trigger] parts[i], absolute))
            ==> first_blocked(parts, absolute) is None,
    decreases parts.len(),
{
    if parts.len() > 0 && forall|i: int|
        0 <= i < parts.len() ==> allowed(#[trigger] parts[i], absolute) {
        let rest = parts.skip(1);
        assert forall|i: int| 0 <= i < rest.len() implies allowed(#[trigger] rest[i], absolute) by {
            assert(rest[i] == parts[i + 1]);
        }
        lemma_nothing_blocked(rest, absolute);
        assert(allowed(parts[0], absolute));
    }
}

/// A character that stays what it is in the text of a path, unless it is a backslash.
pub open spec fn plain_in_path(c: char) -> bool {
    c != '\t' && c != '\r' && c != '\n' && c != '"' && c != '\''
}

/// The text of a path holds neither a backslash nor a tab nor a line break. A path without those,
/// without quotes and without white space around it is its own text, and backslashes in it only
/// become slashes.
#[verifier::rlimit(40)]
pub proof fn path_texts_are_plain(raw: Seq<char>)
    ensures
        forall|i: int|
            0 <= i < path_text(raw).len() ==> ({
                let c = #[trigger] path_text(raw)[i];
                c != '\\' && c != '\t' && c != '\r' && c != '\n'
            }),
        ({
            &&& only(raw, |c: char| plain_in_path(c))
            &&& raw.len() > 0 ==> !is_space(raw[0]) && !is_space(raw.last())
        }) ==> path_text(raw) == raw.map_values(
            |c: char|
                if c == '\\' {
                    '/'
                } else {
                    c
                },
        ),
{
    reveal_strlit("/");
    reveal_strlit("/t");
    reveal_strlit("");
    let bare = trimmed_by(trimmed_by(trimmed(raw), CharClass::Quote), CharClass::Apostrophe);
    let p0 = |c: char| true;
    let p1 = |c: char| c != '\\';
    let p2 = |c: char| c != '\\' && c != '\t';
    let p3 = |c: char| c != '\\' && c != '\t' && c != '\r';
    let p4 = |c: char| c != '\\' && c != '\t' && c != '\r' && c != '\n';
    let a = char_replaced(bare, '\\', "/"@);
    let b = char_replaced(a, '\t', "/t"@);
    let c = char_replaced(b, '\r', ""@);
    let d = char_replaced(c, '\n', ""@);
    assert(only(bare, p0));
    lemma_char_replaced_only(bare, '\\', "/"@, p0, p1);
    lemma_char_replaced_only(a, '\t', "/t"@, p1, p2);
    lemma_char_replaced_only(b, '\r', ""@, p2, p3);
    lemma_char_replaced_only(c, '\n', ""@, p3, p4);
    lemma_trimmed_part(d, CharClass::Space);
    let at = lead(d, CharClass::Space) as int;
    assert forall|i: int| 0 <= i < path_text(raw).len() implies p4(#[trigger] path_text(raw)[i]) by {
        assert(path_text(raw)[i] == d[at + i]);
        assert(p4(d[at + i]));
    }
    let q = |c: char| plain_in_path(c);
    let f = |c: char|
        if c == '\\' {
            '/'
        } else {
            c
        };
    if only(raw, q) && (raw.len() > 0 ==> !is_space(raw[0]) && !is_space(raw.last())) {
        lemma_trimmed_bare(raw, CharClass::Space);
        if raw.len() > 0 {
            assert(q(raw[0]));
            assert(q(raw[raw.len() - 1]));
        }
        lemma_trimmed_bare(raw, CharClass::Quote);
        lemma_trimmed_bare(raw, CharClass::Apostrophe);
        assert(bare == raw);
        lemma_char_swapped(raw, '\\', "/"@);
        assert(a =~= raw.map_values(f));
        assert forall|i: int| 0 <= i < a.len() implies plain_in_path(#[trigger] a[i]) by {
            assert(q(raw[i]));
        }
        let n1 = |x: char| x != '\t';
        let n2 = |x: char| x != '\r';
        let n3 = |x: char| x != '\n';
        assert forall|i: int| 0 <= i < a.len() implies n1(#[trigger] a[i]) && n2(a[i]) && n3(
            a[i],
        ) by {
            assert(plain_in_path(a[i]));
        }
        lemma_char_replaced_none(a, '\t', "/t"@);
        lemma_char_replaced_none(a, '\r', ""@);
        lemma_char_replaced_none(a, '\n', ""@);
        assert(d == a);
        if raw.len() > 0 {
            assert(a[0] == f(raw[0]));
            assert(a.last() == f(raw.last()));
        }
        lemma_trimmed_bare(a, CharClass::Space);
    }
}

/// Quotes around a path are no part of it, and a tab in it stands for a backslash and a `t`.
pub proof fn quotes_and_tabs_are_read_as_meant(a: Seq<char>, b: Seq<char>)
    requires
        only(a, |c: char| plain_in_path(c)),
        only(b, |c: char| plain_in_path(c)),
        a.len() > 0 && !is_space(a[0]) && !is_space(a.last()),
        b.len() > 0 && !is_space(b[0]) && !is_space(b.last()),
    ensures
        path_text(seq!['"'] + a + seq!['"']) == path_text(a),
        path_text(seq!['\''] + a + seq!['\'']) == path_text(a),
        path_text(a + seq!['\t'] + b) == path_text(a) + "/t"@ + path_text(b),
        source_text(seq!['"'] + a + seq!['"']) == a,
        source_text(a) == a,
{
    let q = |c: char| plain_in_path(c);
    assert(q(a[0]) && q(a[a.len() - 1]) && q(b[0]) && q(b[b.len() - 1]));
    path_texts_are_plain(a);
    path_texts_are_plain(b);
    let double = seq!['"'];
    let single = seq!['\''];
    let x = double + a + double;
    let y = single + a + single;
    lemma_trimmed_bare(a, CharClass::Space);
    lemma_trimmed_bare(a, CharClass::Quote);
    lemma_trimmed_bare(a, CharClass::Apostrophe);
    assert(x[0] == '"' && x.last() == '"');
    lemma_trimmed_bare(x, CharClass::Space);
    only_the_edges_are_trimmed(double, a, double, CharClass::Quote);
    assert(y[0] == '\'' && y.last() == '\'');
    lemma_trimmed_bare(y, CharClass::Space);
    lemma_trimmed_bare(y, CharClass::Quote);
    only_the_edges_are_trimmed(single, a, single, CharClass::Apostrophe);
    lemma_tab(a, b);
}

/// A tab between two plain texts.
#[verifier::rlimit(40)]
proof fn lemma_tab(a: Seq<char>, b: Seq<char>)
    requires
        only(a, |c: char| plain_in_path(c)),
        only(b, |c: char| plain_in_path(c)),
        a.len() > 0 && !is_space(a[0]) && !is_space(a.last()),
        b.len() > 0 && !is_space(b[0]) && !is_space(b.last()),
    ensures
        path_text(a + seq!['\t'] + b) == path_text(a) + "/t"@ + path_text(b),
{
    reveal_strlit("/");
    reveal_strlit("/t");
    reveal_strlit("");
    let q = |c: char| plain_in_path(c);
    assert(q(a[0]) && q(a[a.len() - 1]) && q(b[0]) && q(b[b.len() - 1]));
    let tab = seq!['\t'];
    let all = a + tab + b;
    assert(all[0] == a[0] && all.last() == b.last());
    lemma_trimmed_bare(all, CharClass::Space);
    lemma_trimmed_bare(all, CharClass::Quote);
    lemma_trimmed_bare(all, CharClass::Apostrophe);
    lemma_slashes(a);
    lemma_slashes(b);
    let a1 = char_replaced(a, '\\', "/"@);
    let b1 = char_replaced(b, '\\', "/"@);
    lemma_char_replaced_add(a + tab, b, '\\', "/"@);
    lemma_char_replaced_add(a, tab, '\\', "/"@);
    lemma_char_replaced_none(tab, '\\', "/"@);
    let s1 = a1 + tab + b1;
    assert(char_replaced(all, '\\', "/"@) == s1);
    lemma_char_replaced_add(a1 + tab, b1, '\t', "/t"@);
    lemma_char_replaced_add(a1, tab, '\t', "/t"@);
    let none = tab.drop_last();
    assert(none =~= Seq::<char>::empty());
    assert(tab.last() == '\t');
    assert(char_replaced(none, '\t', "/t"@) =~= Seq::<char>::empty());
    assert(char_replaced(tab, '\t', "/t"@) =~= "/t"@);
    let s2 = a1 + "/t"@ + b1;
    assert(char_replaced(s1, '\t', "/t"@) == s2);
    lemma_char_replaced_add(a1 + "/t"@, b1, '\r', ""@);
    lemma_char_replaced_add(a1, "/t"@, '\r', ""@);
    lemma_char_replaced_none("/t"@, '\r', ""@);
    lemma_char_replaced_add(a1 + "/t"@, b1, '\n', ""@);
    lemma_char_replaced_add(a1, "/t"@, '\n', ""@);
    lemma_char_replaced_none("/t"@, '\n', ""@);
    assert(s2[0] == a1[0] && s2.last() == b1.last());
    lemma_trimmed_bare(s2, CharClass::Space);
    path_texts_are_plain(a);
    path_texts_are_plain(b);
}

/// Backslashes in a plain text become slashes, and nothing else happens to it.
proof fn lemma_slashes(a: Seq<char>)
    requires
        only(a, |c: char| plain_in_path(c)),
        a.len() > 0 && !is_space(a[0]) && !is_space(a.last()),
    ensures
        ({
            let s = char_replaced(a, '\\', "/"@);
            &&& s == path_text(a)
            &&& s.len() == a.len()
            &&& !is_space(s[0]) && !is_space(s.last())
            &&& char_replaced(s, '\t', "/t"@) == s
            &&& char_replaced(s, '\r', ""@) == s
            &&& char_replaced(s, '\n', ""@) == s
        }),
{
    reveal_strlit("/");
    path_texts_are_plain(a);
    lemma_char_swapped(a, '\\', "/"@);
    let s = char_replaced(a, '\\', "/"@);
    let q = |c: char| plain_in_path(c);
    let n1 = |x: char| x != '\t';
    let n2 = |x: char| x != '\r';
    let n3 = |x: char| x != '\n';
    assert forall|i: int| 0 <= i < s.len() implies n1(#[trigger] s[i]) && n2(s[i]) && n3(s[i]) by {
        assert(q(a[i]));
    }
    lemma_char_replaced_none(s, '\t', "/t"@);
    lemma_char_replaced_none(s, '\r', ""@);
    lemma_char_replaced_none(s, '\n', ""@);
}

/// A path that is refused is named by its text, unless it is empty or could not be checked, and then
/// it is said why.
pub proof fn refusals_name_the_path(raw: Seq<char>, facts: PathFacts)
    requires
        path_text(raw).len() > 0,
        path_verdict(raw, facts) is Err,
    ensures
        blocked_error(path_text(raw), facts.parts@, facts.absolute) is Some || facts.parent is Ok
            ==> ends(path_verdict(raw, facts)->Err_0, path_text(raw)),
        blocked_error(path_text(raw), facts.parts@, facts.absolute) is None ==> (facts.parent matches
            Err(e) ==> ends(path_verdict(raw, facts)->Err_0, e@)),
{
    let t = path_text(raw);
    let s = path_verdict(raw, facts)->Err_0;
    if blocked_error(t, facts.parts@, facts.absolute) is None {
        match facts.parent {
            Err(e) => {
                assert(s.subrange(s.len() - e@.len(), s.len() as int) =~= e@);
            },
            Ok(_) => {
                assert(s.subrange(s.len() - t.len(), s.len() as int) =~= t);
            },
        }
    } else {
        assert(s.subrange(s.len() - t.len(), s.len() as int) =~= t);
    }
}

/// A path whose text holds a `..` between its slashes is refused wherever the project lies, and
/// whatever is said of its components.
pub proof fn climbing_texts_are_blocked(raw: Seq<char>, facts: PathFacts, a: int)
    requires
        is_segment(path_text(raw), a, a + 2),
        path_text(raw).subrange(a, a + 2) == ".."@,
    ensures
        path_verdict(raw, facts) is Err,
{
    assert(climbs(path_text(raw)));
}

/// A path with `..` among its components is refused wherever the project lies.
pub proof fn climbing_paths_are_blocked(raw: Seq<char>, facts: PathFacts, i: int)
    requires
        0 <= i < facts.parts@.len(),
        facts.parts@[i] is Parent,
    ensures
        path_verdict(raw, facts) is Err,
{
    if path_verdict(raw, facts) is Ok {
        accepted_paths_stay_inside(raw, facts);
        assert(allowed(facts.parts@[i], facts.absolute));
    }
}

/// The text of a path that a file action names.
pub fn project_path_text(rel_path: &str) -> (r: String)
    ensures
        r@ == path_text(rel_path@),
{
    let bare = trim_by(trim_by(trim(rel_path), CharClass::Quote), CharClass::Apostrophe);
    let slashes = replace_char(bare, '\\', "/");
    let tabs = replace_char(slashes.as_str(), '\t', "/t");
    let joined = replace_char(tabs.as_str(), '\r', "");
    let feeds = replace_char(joined.as_str(), '\n', "");
    trim(feeds.as_str()).to_owned()
}

/// Two dots begin at `i`, with a slash or an end of the text on both sides.
spec fn dots_at(text: Seq<char>, i: int) -> bool {
    &&& 0 <= i
    &&& i + 2 <= text.len()
    &&& text[i] == '.'
    &&& text[i + 1] == '.'
    &&& i == 0 || text[i - 1] == '/'
    &&& i + 2 == text.len() || text[i + 2] == '/'
}

/// Such dots are what makes a path climb.
proof fn lemma_dots(text: Seq<char>)
    ensures
        climbs(text) == exists|i: int| dots_at(text, i),
{
    reveal_strlit("..");
    if climbs(text) {
        let (a, b) = choose|a: int, b: int| #[trigger]
            is_segment(text, a, b) && text.subrange(a, b) == ".."@;
        assert(text.subrange(a, b).len() == 2);
        assert(text.subrange(a, b)[0] == text[a]);
        assert(text.subrange(a, b)[1] == text[a + 1]);
        assert(dots_at(text, a));
    }
    if exists|i: int| dots_at(text, i) {
        let i = choose|i: int| dots_at(text, i);
        assert(text.subrange(i, i + 2) =~= ".."@);
        assert(is_segment(text, i, i + 2));
    }
}

/// Whether a `..` stands between the slashes of a path.
fn text_climbs(text: &str) -> (r: bool)
    ensures
        r == climbs(text@),
{
    let v = chars_of(text);
    let n: usize = v.len();
    proof {
        lemma_dots(text@);
    }
    let mut i: usize = 0;
    while n - i >= 2
        invariant
            i <= n == v@.len(),
            v@ == text@,
            climbs(text@) == exists|k: int| dots_at(text@, k),
            forall|k: int| 0 <= k < i ==> !dots_at(text@, k),
        decreases n - i,
    {
        if v[i] == '.' && v[i + 1] == '.' && (i == 0 || v[i - 1] == '/') && (n - i == 2 || v[i + 2]
            == '/') {
            assert(dots_at(text@, i as int));
            return true;
        }
        i += 1;
    }
    false
}

/// The error for the components of a path, and for a `..` in its text that is none of them.
pub fn path_parts_error(text: &str, parts: &Vec<PathPart>, absolute: bool) -> (r: Option<String>)
    ensures
        match r {
            Some(e) => blocked_error(text@, parts@, absolute) == Some(e@),
            None => blocked_error(text@, parts@, absolute) is None,
        },
{
    let n: usize = parts.len();
    let mut i: usize = 0;
    assert(parts@.skip(0) =~= parts@);
    while i < n
        invariant
            i <= n == parts@.len(),
            first_blocked(parts@, absolute) == first_blocked(parts@.skip(i as int), absolute),
        decreases n - i,
    {
        assert(parts@.skip(i as int).skip(1) =~= parts@.skip(i + 1));
        match parts[i] {
            PathPart::Normal | PathPart::Current => {},
            PathPart::Parent => {
                let mut error: String = "Paths with '..' are blocked: ".to_owned();
                error.append(text);
                return Some(error);
            },
            PathPart::Prefix | PathPart::Root => {
                if !absolute {
                    let mut error: String = "Non-relative path is blocked: ".to_owned();
                    error.append(text);
                    return Some(error);
                }
            },
        }
        i += 1;
    }
    if text_climbs(text) {
        let mut error: String = "Paths with '..' are blocked: ".to_owned();
        error.append(text);
        return Some(error);
    }
    None
}

/// Whether the folder `inner` is `outer` or lies below it.
pub fn lies_within(outer: &Vec<String>, inner: &Vec<String>) -> (r: bool)
    ensures
        r == within(texts(outer@), texts(inner@)),
{
    let n: usize = outer.len();
    let ghost a = texts(outer@);
    let ghost b = texts(inner@);
    if n > inner.len() {
        return false;
    }
    let mut i: usize = 0;
    while i < n
        invariant
            i <= n == outer@.len(),
            n <= inner@.len(),
            a == texts(outer@),
            b == texts(inner@),
            forall|k: int| 0 <= k < i ==> #[trigger] a[k] == b[k],
        decreases n - i,
    {
        if !text_is(outer[i].as_str(), inner[i].as_str()) {
            assert(a[i as int] != b.take(n as int)[i as int]);
            return false;
        }
        i += 1;
    }
    assert(b.take(n as int) =~= a);
    true
}

/// Which of the folders above a target is looked at: the first that exists, from the nearest one on.
/// Where none does, it is the project folder.
pub fn deepest_existing(exists: &Vec<bool>) -> (r: Option<usize>)
    ensures
        match r {
            Some(i) => first_there(exists@, 0) == Some(i as int) && i < exists@.len(),
            None => first_there(exists@, 0) is None,
        },
{
    first_existing(exists)
}

/// What becomes of a path that a file action names: its text, or why it is refused.
pub fn safe_project_path(rel_path: &str, facts: &PathFacts) -> (r: Result<String, String>)
    ensures
        verdict_view(r) == path_verdict(rel_path@, *facts),
{
    let text = project_path_text(rel_path);
    if text.as_str().is_empty() {
        return Err("Empty file path is not allowed.".to_owned());
    }
    if let Some(error) = path_parts_error(text.as_str(), &facts.parts, facts.absolute) {
        return Err(error);
    }
    match &facts.parent {
        Err(e) => {
            let mut error: String = "Target path could not be checked: ".to_owned();
            error.append(e.as_str());
            Err(error)
        },
        Ok(parent) => if lies_within(&facts.root, parent) {
            Ok(text)
        } else {
            let mut error: String = if facts.absolute {
                "Absolute path is outside the project folder: ".to_owned()
            } else {
                "Target is outside the project folder: ".to_owned()
            };
            error.append(text.as_str());
            Err(error)
        },
    }
}

/// The text of the project folder, or the error where there is none.
pub fn canonical_project_root(project_dir: &str) -> (r: Result<String, String>)
    ensures
        verdict_view(r) == if trimmed_by(trimmed(project_dir@), CharClass::Quote).len() == 0 {
            Err::<Seq<char>, Seq<char>>("The project folder is empty."@)
        } else {
            Ok(trimmed_by(trimmed(project_dir@), CharClass::Quote))
        },
{
    let text = trim_by(trim(project_dir), CharClass::Quote);
    if text.is_empty() {
        Err("The project folder is empty.".to_owned())
    } else {
        Ok(text.to_owned())
    }
}

/// The text of the source of a copy without the quotes around it.
pub open spec fn source_text(source: Seq<char>) -> Seq<char> {
    trimmed_by(trimmed_by(trimmed(source), CharClass::Quote), CharClass::Apostrophe)
}

/// The text of the source of a copy without the quotes around it.
pub fn clean_source(source: &str) -> (r: String)
    ensures
        r@ == source_text(source@),
{
    trim_by(trim_by(trim(source), CharClass::Quote), CharClass::Apostrophe).to_owned()
}

/// The extension of a file name: what stands behind its last dot, unless that dot comes first.
pub open spec fn extension(name: Seq<char>) -> Option<Seq<char>> {
    match last_at(name, "."@) {
        Some(i) => if i == 0 {
            None
        } else {
            Some(name.skip(i + 1))
        },
        None => None,
    }
}

/// The name of a Python script.
pub open spec fn python_name(name: Seq<char>) -> bool {
    extension(name) is Some && ascii_lower(extension(name)->0) == "py"@
}

/// What stands behind the last dot of a name is its extension, and it has none where nothing stands
/// in front of that dot, or no dot in it.
pub proof fn extensions_stand_behind_the_last_dot(stem: Seq<char>, ending: Seq<char>)
    requires
        !ending.contains('.'),
    ensures
        stem.len() > 0 ==> extension(stem + "."@ + ending) == Some(ending),
        extension("."@ + ending) is None,
        extension(ending) is None,
{
    reveal_strlit(".");
    let none = Seq::<char>::empty();
    lemma_last_dot(stem, ending);
    assert((stem + "."@ + ending).skip(stem.len() as int + 1) =~= ending);
    lemma_last_dot(none, ending);
    assert(none + "."@ + ending =~= "."@ + ending);
    lemma_no_dot(ending);
}

/// The last dot of a name is the one behind which there is none.
proof fn lemma_last_dot(front: Seq<char>, ending: Seq<char>)
    requires
        !ending.contains('.'),
    ensures
        last_at(front + "."@ + ending, "."@) == Some(front.len() as int),
{
    reveal_strlit(".");
    let name = front + "."@ + ending;
    let n = front.len() as int;
    assert(name.subrange(n, n + 1) =~= "."@);
    assert forall|j: int| n < j implies !occurs_at(name, "."@, j) by {
        if occurs_at(name, "."@, j) {
            assert(name.subrange(j, j + 1)[0] == '.');
            assert(ending[j - n - 1] == '.');
        }
    }
    lemma_found_last(name, "."@, n);
}

/// A text without a dot holds none.
proof fn lemma_no_dot(s: Seq<char>)
    requires
        !s.contains('.'),
    ensures
        last_at(s, "."@) is None,
{
    reveal_strlit(".");
    lemma_last_at(s, "."@);
    if last_at(s, "."@) is Some {
        let i = last_at(s, "."@)->0;
        assert(s.subrange(i, i + 1)[0] == '.');
        assert(s[i] == '.');
    }
}

/// A Python script is known by the ending `.py`, in capitals or not, behind a name.
pub proof fn scripts_are_known_by_their_ending(name: Seq<char>)
    ensures
        python_name(name) <==> {
            &&& name.len() > 3
            &&& name[name.len() - 3] == '.'
            &&& name[name.len() - 2] == 'p' || name[name.len() - 2] == 'P'
            &&& name[name.len() - 1] == 'y' || name[name.len() - 1] == 'Y'
        },
{
    let n = name.len() as int;
    if n > 3 && name[n - 3] == '.' && (name[n - 2] == 'p' || name[n - 2] == 'P') && (name[n - 1]
        == 'y' || name[n - 1] == 'Y') {
        lemma_script(name.take(n - 3), name.skip(n - 2));
        reveal_strlit(".");
        assert(name.take(n - 3) + "."@ + name.skip(n - 2) =~= name);
    }
    if python_name(name) {
        lemma_dot_there(name);
        lemma_py(extension(name)->0);
        let i = last_at(name, "."@)->0;
        assert(extension(name)->0 == name.skip(i + 1));
    }
}

/// A name behind which the ending stands is that of a script.
proof fn lemma_script(stem: Seq<char>, ending: Seq<char>)
    requires
        stem.len() > 0,
        ending.len() == 2,
        ending[0] == 'p' || ending[0] == 'P',
        ending[1] == 'y' || ending[1] == 'Y',
    ensures
        python_name(stem + "."@ + ending),
{
    reveal_strlit("py");
    extensions_stand_behind_the_last_dot(stem, ending);
    assert(ascii_lower(ending) =~= "py"@);
}

/// Where the last dot of a name is found, a dot stands.
proof fn lemma_dot_there(name: Seq<char>)
    ensures
        last_at(name, "."@) matches Some(i) ==> 0 <= i < name.len() && name[i] == '.',
{
    reveal_strlit(".");
    lemma_last_at(name, "."@);
    if last_at(name, "."@) is Some {
        let i = last_at(name, "."@)->0;
        assert(name.subrange(i, i + 1)[0] == '.');
    }
}

/// The ending in small letters.
proof fn lemma_py(e: Seq<char>)
    requires
        ascii_lower(e) == "py"@,
    ensures
        e.len() == 2,
        e[0] == 'p' || e[0] == 'P',
        e[1] == 'y' || e[1] == 'Y',
{
    reveal_strlit("py");
    assert(ascii_lower(e).len() == 2);
    assert(ascii_lower(e)[0] == ascii_small(e[0]));
    assert(ascii_lower(e)[1] == ascii_small(e[1]));
}

/// The extension of a file name.
pub fn extension_of(name: &str) -> (r: Option<&str>)
    ensures
        match r {
            Some(e) => extension(name@) == Some(e@),
            None => extension(name@) is None,
        },
{
    proof {
        reveal_strlit(".");
    }
    match rfind(name, ".") {
        Some(i) => if i == 0 {
            None
        } else {
            let total: usize = name.unicode_len();
            assert(i + 1 <= total);
            Some(skip_chars(name, i + 1))
        },
        None => None,
    }
}

/// Whether a file name is that of a Python script.
pub fn is_python_name(name: &str) -> (r: bool)
    ensures
        r == python_name(name@),
{
    match extension_of(name) {
        Some(e) => text_is(to_ascii_lower(e).as_str(), "py"),
        None => false,
    }
}

} // verus!
