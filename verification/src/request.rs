//! The file that a request names.

use vstd::prelude::*;
use crate::chars::{in_class, CharClass};
use crate::intent::{intent_of, normalize_for_intent};
use crate::outside::{lowered, to_lowercase};
use crate::text::{
    begins, char_replaced, contains, contains_char, holds, last_at, lemma_char_swapped,
    lemma_first_at, lemma_last_at, lemma_trimmed_bare, occurs_at, only, only_the_edges_are_trimmed,
    opt_text, replace_char, rfind, second_piece, second_split, skip_chars, split_words, starts_with,
    text_is, texts, trim_by, trimmed_by, what_follows_a_phrase, words,
};

verus! {

/// What stands behind the last slash.
pub open spec fn after_last_slash(s: Seq<char>) -> Seq<char> {
    match last_at(s, "/"@) {
        Some(i) => s.skip(i + "/"@.len()),
        None => s,
    }
}

/// The endings of files that requests can name.
pub open spec fn known_ending(ext: Seq<char>) -> bool {
    ||| ext == "txt"@
    ||| ext == "md"@
    ||| ext == "json"@
    ||| ext == "toml"@
    ||| ext == "yaml"@
    ||| ext == "yml"@
    ||| ext == "rs"@
    ||| ext == "js"@
    ||| ext == "ts"@
    ||| ext == "tsx"@
    ||| ext == "jsx"@
    ||| ext == "html"@
    ||| ext == "css"@
    ||| ext == "py"@
    ||| ext == "bat"@
    ||| ext == "ps1"@
    ||| ext == "csv"@
    ||| ext == "xml"@
}

/// A token in small letters that looks like a file path: no web address, and its last part is a
/// name, a dot and a known ending.
pub open spec fn path_like(lower: Seq<char>) -> bool {
    &&& !holds(lower, "://"@)
    &&& !begins(lower, "http"@)
    &&& {
        let name = after_last_slash(lower);
        match last_at(name, "."@) {
            Some(i) => i > 0 && known_ending(name.skip(i + "."@.len())),
            None => false,
        }
    }
}

/// A word of a request without the punctuation around it, with forward slashes.
pub open spec fn token_of(word: Seq<char>) -> Seq<char> {
    char_replaced(trimmed_by(word, CharClass::TokenEdge), '\\', "/"@)
}

/// The first of the words that looks like a file path.
pub open spec fn first_path(list: Seq<Seq<char>>) -> Option<Seq<char>>
    decreases list.len(),
{
    if list.len() == 0 {
        None
    } else if path_like(lowered(token_of(list[0]))) {
        Some(token_of(list[0]))
    } else {
        first_path(list.skip(1))
    }
}

/// A request with blanks in place of quotes.
pub open spec fn unquoted(s: Seq<char>) -> Seq<char> {
    char_replaced(char_replaced(char_replaced(s, '`', " "@), '"', " "@), '\'', " "@)
}

/// The file that the text behind a phrase like "named" names: its first word without the
/// punctuation around it, as a text file where it has no ending.
pub open spec fn named_file(rest: Seq<char>) -> Option<Seq<char>> {
    let name = if words(rest).len() == 0 {
        trimmed_by(""@, CharClass::NotName)
    } else {
        trimmed_by(words(rest)[0], CharClass::NotName)
    };
    if name.len() == 0 || name == "inhalt"@ || name == "text"@ || name == "dem"@ || name == "der"@
        || name == "den"@ {
        None
    } else if name.contains('.') {
        Some(name)
    } else {
        Some(name + ".txt"@)
    }
}

/// The file that a message names behind one of the naming phrases; the first phrase that stands in
/// the message decides.
pub open spec fn file_by_phrase(intent: Seq<char>) -> Option<Seq<char>> {
    if let Some(rest) = second_piece(intent, "with the name "@) {
        named_file(rest)
    } else if let Some(rest) = second_piece(intent, "with name "@) {
        named_file(rest)
    } else if let Some(rest) = second_piece(intent, "named "@) {
        named_file(rest)
    } else if let Some(rest) = second_piece(intent, "mit namen "@) {
        named_file(rest)
    } else if let Some(rest) = second_piece(intent, "namens "@) {
        named_file(rest)
    } else if let Some(rest) = second_piece(intent, "mit "@) {
        named_file(rest)
    } else {
        None
    }
}

/// The file that a message asks for: the first word that looks like a path, or else the file that
/// a naming phrase names.
pub open spec fn requested_path(request: Seq<char>) -> Option<Seq<char>> {
    match first_path(words(unquoted(request))) {
        Some(p) => Some(p),
        None => file_by_phrase(intent_of(request)),
    }
}

/// A name with a known ending is a file that a request can name, in whatever folder; a web address is
/// none, and neither is a name that is all ending, or one with another ending.
#[verifier::rlimit(40)]
pub proof fn names_with_an_ending_are_files(folder: Seq<char>, stem: Seq<char>, ending: Seq<char>)
    requires
        folder.len() > 0 ==> folder.last() == '/',
        !stem.contains('/'),
        !ending.contains('/'),
        !ending.contains('.'),
    ensures
        ({
            let lower = folder + stem + "."@ + ending;
            path_like(lower) == (stem.len() > 0 && !holds(lower, "://"@) && !begins(lower, "http"@) && {
                ||| ending == "txt"@
                ||| ending == "md"@
                ||| ending == "json"@
                ||| ending == "toml"@
                ||| ending == "yaml"@
                ||| ending == "yml"@
                ||| ending == "rs"@
                ||| ending == "js"@
                ||| ending == "ts"@
                ||| ending == "tsx"@
                ||| ending == "jsx"@
                ||| ending == "html"@
                ||| ending == "css"@
                ||| ending == "py"@
                ||| ending == "bat"@
                ||| ending == "ps1"@
                ||| ending == "csv"@
                ||| ending == "xml"@
            })
        }),
{
    reveal_strlit("/");
    reveal_strlit(".");
    let name = stem + "."@ + ending;
    let lower = folder + stem + "."@ + ending;
    assert forall|i: int| 0 <= i < name.len() implies #[trigger] name[i] != '/' by {
        if i < stem.len() {
            assert(stem.contains(stem[i]));
        } else if i > stem.len() {
            assert(ending.contains(ending[i - stem.len() - 1]));
        }
    }
    lemma_last_at(lower, "/"@);
    match last_at(lower, "/"@) {
        Some(i) => {
            assert(lower.subrange(i, i + 1)[0] == '/');
            if i >= folder.len() {
                assert(lower[i] == name[i - folder.len()]);
            } else if i < folder.len() - 1 {
                assert(lower.subrange(folder.len() - 1, folder.len() as int) =~= "/"@);
                assert(occurs_at(lower, "/"@, folder.len() - 1));
            }
            assert(lower.skip(i + 1) =~= name);
        },
        None => {
            if folder.len() > 0 {
                assert(lower.subrange(folder.len() - 1, folder.len() as int) =~= "/"@);
                assert(occurs_at(lower, "/"@, folder.len() - 1));
            }
            assert(lower =~= name);
        },
    }
    assert(after_last_slash(lower) == name);
    let n = stem.len() as int;
    lemma_last_at(name, "."@);
    assert(name.subrange(n, n + 1) =~= "."@);
    assert(occurs_at(name, "."@, n));
    match last_at(name, "."@) {
        Some(i) => {
            assert(name.subrange(i, i + 1)[0] == '.');
            if i > n {
                assert(ending.contains(ending[i - n - 1]));
            }
            assert(name.skip(i + 1) =~= ending);
        },
        None => {},
    }
}

/// The file that a request asks for is the first of its words that looks like a path, without the
/// punctuation around it.
pub proof fn the_first_path_counts(before: Seq<Seq<char>>, word: Seq<char>, behind: Seq<Seq<char>>)
    requires
        forall|i: int| 0 <= i < before.len() ==> !path_like(lowered(token_of(#[trigger] before[i]))),
    ensures
        path_like(lowered(token_of(word))) ==> first_path(before + seq![word] + behind) == Some(
            token_of(word),
        ),
        first_path(before) is None,
    decreases before.len(),
{
    let all = before + seq![word] + behind;
    if before.len() == 0 {
        assert(all[0] == word);
    } else {
        let rest = before.skip(1);
        assert(all[0] == before[0]);
        assert forall|i: int| 0 <= i < rest.len() implies !path_like(
            lowered(token_of(#[trigger] rest[i])),
        ) by {
            assert(rest[i] == before[i + 1]);
        }
        assert(all.skip(1) =~= rest + seq![word] + behind);
        the_first_path_counts(rest, word, behind);
    }
}

/// Where a word of the request looks like a path, that is the file, whatever else the request says.
pub proof fn paths_come_before_names(request: Seq<char>, before: Seq<Seq<char>>, word: Seq<char>, behind: Seq<Seq<char>>)
    requires
        words(unquoted(request)) == before + seq![word] + behind,
        forall|i: int| 0 <= i < before.len() ==> !path_like(lowered(token_of(#[trigger] before[i]))),
        path_like(lowered(token_of(word))),
    ensures
        requested_path(request) == Some(token_of(word)),
{
    the_first_path_counts(before, word, behind);
}

/// A word of a request stands for itself, apart from punctuation around it and from backslashes, which
/// become slashes; and quotes around it are blanks.
pub proof fn punctuation_is_no_part_of_a_word(
    front: Seq<char>,
    word: Seq<char>,
    behind: Seq<char>,
    i: int,
)
    requires
        only(front, |c: char| in_class(CharClass::TokenEdge, c)),
        only(behind, |c: char| in_class(CharClass::TokenEdge, c)),
        word.len() > 0,
        !in_class(CharClass::TokenEdge, word[0]),
        !in_class(CharClass::TokenEdge, word.last()),
    ensures
        token_of(front + word + behind).len() == word.len(),
        0 <= i < word.len() ==> token_of(front + word + behind)[i] == if word[i] == '\\' {
            '/'
        } else {
            word[i]
        },
        unquoted(word).len() == word.len(),
        0 <= i < word.len() ==> unquoted(word)[i] == if word[i] == '`' || word[i] == '"' || word[i]
            == '\'' {
            ' '
        } else {
            word[i]
        },
{
    reveal_strlit("/");
    reveal_strlit(" ");
    only_the_edges_are_trimmed(front, word, behind, CharClass::TokenEdge);
    lemma_char_swapped(word, '\\', "/"@);
    let a = char_replaced(word, '`', " "@);
    let b = char_replaced(a, '"', " "@);
    lemma_char_swapped(word, '`', " "@);
    lemma_char_swapped(a, '"', " "@);
    lemma_char_swapped(b, '\'', " "@);
}

/// A file that is named by a plain word behind a naming phrase is that word, as a text file where it
/// has no ending.
pub proof fn names_without_an_ending_are_text_files(name: Seq<char>, rest: Seq<char>)
    requires
        words(rest).len() > 0,
        words(rest)[0] == name,
        name.len() > 0,
        !in_class(CharClass::NotName, name[0]),
        !in_class(CharClass::NotName, name.last()),
        name != "inhalt"@ && name != "text"@ && name != "dem"@ && name != "der"@ && name != "den"@,
    ensures
        name.contains('.') ==> named_file(rest) == Some(name),
        !name.contains('.') ==> named_file(rest) == Some(name + ".txt"@),
{
    lemma_trimmed_bare(name, CharClass::NotName);
}

/// The naming phrases, each of which counts where none of those before it stands in the message: what
/// follows it names the file.
#[verifier::rlimit(40)]
pub proof fn files_are_named_behind_a_phrase(front: Seq<char>, phrase: Seq<char>, rest: Seq<char>)
    requires
        forall|j: int| 0 <= j < front.len() ==> !occurs_at(front + phrase + rest, phrase, j),
        !holds(rest, phrase),
        ({
            let intent = front + phrase + rest;
            ||| phrase == "with the name "@
            ||| phrase == "with name "@ && !holds(intent, "with the name "@)
            ||| phrase == "named "@ && !holds(intent, "with the name "@) && !holds(
                intent,
                "with name "@,
            )
            ||| phrase == "mit namen "@ && !holds(intent, "with the name "@) && !holds(
                intent,
                "with name "@,
            ) && !holds(intent, "named "@)
            ||| phrase == "namens "@ && !holds(intent, "with the name "@) && !holds(
                intent,
                "with name "@,
            ) && !holds(intent, "named "@) && !holds(intent, "mit namen "@)
            ||| phrase == "mit "@ && !holds(intent, "with the name "@) && !holds(
                intent,
                "with name "@,
            ) && !holds(intent, "named "@) && !holds(intent, "mit namen "@) && !holds(
                intent,
                "namens "@,
            )
        }),
    ensures
        file_by_phrase(front + phrase + rest) == named_file(rest),
{
    let intent = front + phrase + rest;
    what_follows_a_phrase(front, phrase, rest);
    lemma_first_at(intent, "with the name "@);
    lemma_first_at(intent, "with name "@);
    lemma_first_at(intent, "named "@);
    lemma_first_at(intent, "mit namen "@);
    lemma_first_at(intent, "namens "@);
    lemma_first_at(intent, phrase);
}

/// What stands behind the last slash.
fn last_part(s: &str) -> (r: &str)
    ensures
        r@ == after_last_slash(s@),
{
    match rfind(s, "/") {
        Some(i) => {
            let total: usize = s.unicode_len();
            assert(i + "/"@.len() <= total);
            skip_chars(s, i + "/".unicode_len())
        },
        None => s,
    }
}

/// Whether requests can name files with this ending.
fn is_known_ending(ext: &str) -> (r: bool)
    ensures
        r == known_ending(ext@),
{
    text_is(ext, "txt") || text_is(ext, "md") || text_is(ext, "json") || text_is(ext, "toml")
        || text_is(ext, "yaml") || text_is(ext, "yml") || text_is(ext, "rs") || text_is(ext, "js")
        || text_is(ext, "ts") || text_is(ext, "tsx") || text_is(ext, "jsx") || text_is(ext, "html")
        || text_is(ext, "css") || text_is(ext, "py") || text_is(ext, "bat") || text_is(ext, "ps1")
        || text_is(ext, "csv") || text_is(ext, "xml")
}

/// Whether a token in small letters looks like a file path.
pub fn is_path_like(lower: &str) -> (r: bool)
    ensures
        r == path_like(lower@),
{
    if contains(lower, "://") || starts_with(lower, "http") {
        return false;
    }
    let name = last_part(lower);
    match rfind(name, ".") {
        None => false,
        Some(i) => {
            let total: usize = name.unicode_len();
            assert(i + "."@.len() <= total);
            i > 0 && is_known_ending(skip_chars(name, i + ".".unicode_len()))
        },
    }
}

/// Whether a token looks like a file path.
pub fn looks_like_file_path(token: &str) -> (r: bool)
    ensures
        r == path_like(lowered(token@)),
{
    let lower = to_lowercase(token);
    is_path_like(lower.as_str())
}

/// The file that the text behind a naming phrase names.
pub fn fallback_name_to_txt(rest: &str) -> (r: Option<String>)
    ensures
        opt_text(r) == named_file(rest@),
{
    let list = split_words(rest);
    let name = if list.len() == 0 {
        assert(texts(list@).len() == 0);
        trim_by("", CharClass::NotName)
    } else {
        assert(texts(list@)[0] == list@[0]@);
        trim_by(list[0].as_str(), CharClass::NotName)
    };
    if name.is_empty() || text_is(name, "inhalt") || text_is(name, "text") || text_is(name, "dem")
        || text_is(name, "der") || text_is(name, "den") {
        return None;
    }
    if contains_char(name, '.') {
        Some(name.to_owned())
    } else {
        let mut out: String = name.to_owned();
        out.append(".txt");
        Some(out)
    }
}

/// The file that a message names behind one of the naming phrases.
pub fn named_path(intent: &str) -> (r: Option<String>)
    ensures
        opt_text(r) == file_by_phrase(intent@),
{
    if let Some(rest) = second_split(intent, "with the name ") {
        return fallback_name_to_txt(rest);
    }
    if let Some(rest) = second_split(intent, "with name ") {
        return fallback_name_to_txt(rest);
    }
    if let Some(rest) = second_split(intent, "named ") {
        return fallback_name_to_txt(rest);
    }
    if let Some(rest) = second_split(intent, "mit namen ") {
        return fallback_name_to_txt(rest);
    }
    if let Some(rest) = second_split(intent, "namens ") {
        return fallback_name_to_txt(rest);
    }
    if let Some(rest) = second_split(intent, "mit ") {
        return fallback_name_to_txt(rest);
    }
    None
}

/// The file that a message asks for.
pub fn extract_requested_file_path(user_request: &str) -> (r: Option<String>)
    ensures
        opt_text(r) == requested_path(user_request@),
{
    let a = replace_char(user_request, '`', " ");
    let b = replace_char(a.as_str(), '"', " ");
    let cleaned = replace_char(b.as_str(), '\'', " ");
    let list = split_words(cleaned.as_str());
    let n: usize = list.len();
    let mut i: usize = 0;
    let ghost all = texts(list@);
    assert(all.skip(0) == all);
    while i < n
        invariant
            i <= n == list@.len(),
            all == texts(list@),
            all == words(unquoted(user_request@)),
            first_path(all) == first_path(all.skip(i as int)),
        decreases n - i,
    {
        let word = trim_by(list[i].as_str(), CharClass::TokenEdge);
        let token = replace_char(word, '\\', "/");
        assert(all.skip(i as int)[0] == list@[i as int]@);
        if looks_like_file_path(token.as_str()) {
            return Some(token);
        }
        assert(all.skip(i as int).skip(1) == all.skip(i + 1));
        i += 1;
    }
    let intent = normalize_for_intent(user_request);
    named_path(intent.as_str())
}

} // verus!
