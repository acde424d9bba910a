//! Texts that the user and the log get to see.

use vstd::prelude::*;
use crate::chars::{char_is_ascii_alnum, is_ascii_alnum, is_space, CharClass};
use crate::numbers::{decimal, to_decimal};
use crate::outside::{json_text, json_text_field, decoded, lossy_text};
use crate::prompts::{lemma_holds_middle, lemma_holds_part, lemma_joined_holds};
use crate::text::{
    ascii_lower, begins, blank, char_replaced, chars_of, contains, contains_char, ends,
    every_place_is_replaced, holds, is_blank, join, joined, lead, lemma_char_replaced_none,
    lemma_char_swapped, lemma_not_trimmed_away, lemma_trimmed_bare, lemma_trimmed_part, lines,
    lines_are_told_apart, occurs_at, opt_str, opt_text, replace, replace_char, replaced, skip_chars,
    split_lines, starts_with, take_chars, texts, to_ascii_lower, trim, trim_by, trim_end_by,
    trim_start_by, trimmed, trimmed_by, trimmed_end, trimmed_start,
};

verus! {

// ---------------------------------------------------------------------------------------------
// Shortening
// ---------------------------------------------------------------------------------------------

/// `s`, cut after `n` characters with a note where it is longer.
pub open spec fn shortened(s: Seq<char>, n: int) -> Seq<char> {
    if s.len() <= n {
        s
    } else {
        s.take(n) + "\n[shortened]"@
    }
}

/// `text`, cut after `max_chars` characters with a note where it is longer.
pub fn truncate_text(text: &str, max_chars: usize) -> (r: String)
    ensures
        r@ == shortened(text@, max_chars as int),
{
    if text.unicode_len() <= max_chars {
        text.to_owned()
    } else {
        let mut out: String = take_chars(text, max_chars).to_owned();
        out.append("\n[shortened]");
        out
    }
}

/// A text that is short enough is kept; of a longer one its beginning is kept, and a note says so.
pub proof fn short_texts_are_kept(s: Seq<char>, n: int)
    requires
        0 <= n,
    ensures
        s.len() <= n ==> shortened(s, n) == s,
        s.len() > n ==> shortened(s, n).take(n) == s.take(n) && shortened(s, n).skip(n)
            == "\n[shortened]"@,
{
    if s.len() > n {
        assert(shortened(s, n).take(n) =~= s.take(n));
        assert(shortened(s, n).skip(n) =~= "\n[shortened]"@);
    }
}

/// The title that a chat gets from its first message: the first line, cut after 42 characters.
pub open spec fn chat_title(message: Seq<char>) -> Seq<char> {
    let all = lines(trimmed(message));
    let first = if all.len() == 0 {
        "New task"@
    } else {
        all[0]
    };
    let line = trimmed(first);
    if line.len() == 0 {
        "New task"@
    } else if line.len() <= 42 {
        line
    } else {
        line.take(42) + "..."@
    }
}

/// The title that a chat gets from its first message.
pub fn title_from_message(message: &str) -> (r: String)
    ensures
        r@ == chat_title(message@),
{
    let all = split_lines(trim(message));
    let ghost model = lines(trimmed(message@));
    assert(texts(all@).len() == all@.len());
    let first: &str = if all.len() == 0 {
        "New task"
    } else {
        assert(texts(all@)[0] == all@[0]@);
        all[0].as_str()
    };
    let line = trim(first);
    if line.is_empty() {
        "New task".to_owned()
    } else if line.unicode_len() <= 42 {
        line.to_owned()
    } else {
        let mut out: String = take_chars(line, 42).to_owned();
        out.append("...");
        out
    }
}

/// A chat is called what the first line of its first message says: all of a short one, the beginning
/// of a long one; white space around it does not matter.
#[verifier::rlimit(40)]
pub proof fn chats_are_called_by_their_first_line(line: Seq<char>, rest: Seq<char>)
    requires
        line.len() > 0,
        !line.contains('\n'),
        !is_space(line[0]),
        !is_space(line.last()),
    ensures
        line.len() <= 42 ==> chat_title(line) == line && chat_title(line + "\n"@ + rest) == line,
        line.len() > 42 ==> chat_title(line) == line.take(42) + "..."@ && chat_title(
            line + "\n"@ + rest,
        ) == line.take(42) + "..."@,
{
    reveal_strlit("\n");
    let k = CharClass::Space;
    lemma_trimmed_bare(line, k);
    lines_are_told_apart(line, rest);
    let all = line + "\n"@ + rest;
    let t = trimmed(all);
    lemma_trimmed_part(all, k);
    assert(all[0] == line[0]);
    assert(lead(all, k) == 0);
    assert(all[line.len() - 1] == line.last());
    lemma_not_trimmed_away(all, k, line.len() - 1);
    if t.len() == line.len() {
        assert(t =~= line);
    } else {
        let more = t.skip(line.len() as int + 1);
        assert(t =~= line + "\n"@ + more);
        lines_are_told_apart(line, more);
    }
}

// ---------------------------------------------------------------------------------------------
// Names of files and folders
// ---------------------------------------------------------------------------------------------

/// A character that the name of a folder may keep.
pub open spec fn folder_char(c: char) -> char {
    if is_ascii_alnum(c) || c == '-' || c == '_' || c == ' ' {
        c
    } else {
        '_'
    }
}

/// A character that the name of a file may keep.
pub open spec fn stem_char(c: char) -> char {
    if is_ascii_alnum(c) || c == '-' || c == '_' {
        c
    } else {
        '_'
    }
}

/// The folder name made from the name of a project.
pub open spec fn folder_name(name: Seq<char>) -> Seq<char> {
    let kept = trimmed(name).map_values(|c: char| folder_char(c));
    let bare = char_replaced(trimmed(kept), ' ', "_"@);
    if bare.len() == 0 {
        "Project"@
    } else {
        bare
    }
}

/// The file name made from the stem of a script.
pub open spec fn safe_stem(name: Seq<char>) -> Seq<char> {
    let kept = name.map_values(|c: char| stem_char(c));
    if trimmed_by(kept, CharClass::Underscore).len() == 0 {
        "app"@
    } else {
        kept
    }
}

/// The folder name made from the name of a project.
pub fn sanitize_project_folder_name(name: &str) -> (r: String)
    ensures
        r@ == folder_name(name@),
{
    let v = chars_of(trim(name));
    let n: usize = v.len();
    let mut kept: String = String::new();
    let mut i: usize = 0;
    let ghost f = |c: char| folder_char(c);
    while i < n
        invariant
            i <= n == v@.len(),
            f == (|c: char| folder_char(c)),
            kept@ == v@.take(i as int).map_values(f),
        decreases n - i,
    {
        let c = v[i];
        let keep = if char_is_ascii_alnum(c) || c == '-' || c == '_' || c == ' ' {
            c
        } else {
            '_'
        };
        kept.push(keep);
        i += 1;
        assert(v@.take(i as int).map_values(f) =~= v@.take(i - 1).map_values(f).push(
            folder_char(c),
        ));
    }
    assert(v@.take(n as int) == v@);
    let bare = replace_char(trim(kept.as_str()), ' ', "_");
    if bare.as_str().is_empty() {
        "Project".to_owned()
    } else {
        bare
    }
}

/// The file name made from the stem of a script.
pub fn sanitize_file_stem(name: &str) -> (r: String)
    ensures
        r@ == safe_stem(name@),
{
    let v = chars_of(name);
    let n: usize = v.len();
    let mut kept: String = String::new();
    let mut i: usize = 0;
    let ghost f = |c: char| stem_char(c);
    while i < n
        invariant
            i <= n == v@.len(),
            f == (|c: char| stem_char(c)),
            kept@ == v@.take(i as int).map_values(f),
        decreases n - i,
    {
        let c = v[i];
        let keep = if char_is_ascii_alnum(c) || c == '-' || c == '_' {
            c
        } else {
            '_'
        };
        kept.push(keep);
        i += 1;
        assert(v@.take(i as int).map_values(f) =~= v@.take(i - 1).map_values(f).push(stem_char(c)));
    }
    assert(v@.take(n as int) == v@);
    if trim_by(kept.as_str(), CharClass::Underscore).is_empty() {
        "app".to_owned()
    } else {
        kept
    }
}

/// Whatever a project is called, its folder name holds nothing but ASCII letters, ASCII digits,
/// `-` and `_`, and is not empty.
pub proof fn folder_name_is_plain(name: Seq<char>)
    ensures
        folder_name(name).len() > 0,
        forall|i: int| 0 <= i < folder_name(name).len() ==> ({
            let c = #[trigger] folder_name(name)[i];
            is_ascii_alnum(c) || c == '-' || c == '_'
        }),
{
    reveal_strlit("Project");
    reveal_strlit("_");
    let kept = trimmed(name).map_values(|c: char| folder_char(c));
    lemma_no_space_left(trimmed(kept), kept, name);
}

/// Replacing every space by an underscore leaves letters, digits, `-` and `_` where nothing but
/// those and spaces stood.
proof fn lemma_no_space_left(s: Seq<char>, kept: Seq<char>, name: Seq<char>)
    requires
        kept == trimmed(name).map_values(|c: char| folder_char(c)),
        s == trimmed(kept),
    ensures
        forall|i: int| 0 <= i < char_replaced(s, ' ', "_"@).len() ==> ({
            let c = #[trigger] char_replaced(s, ' ', "_"@)[i];
            is_ascii_alnum(c) || c == '-' || c == '_'
        }),
{
    assert forall|i: int| 0 <= i < s.len() implies folder_char(#[trigger] s[i]) == s[i] by {
        let a = trimmed_start(kept, CharClass::Space);
        crate::text::lemma_lead_bound(kept, CharClass::Space);
        crate::text::lemma_trail_bound(a, CharClass::Space);
        assert(s[i] == a[i]);
        let k = crate::text::lead(kept, CharClass::Space);
        assert(a[i] == kept[i + k]);
        assert(kept[i + k] == folder_char(trimmed(name)[i + k]));
    }
    lemma_plain(s);
}

/// [`lemma_no_space_left`] by induction.
proof fn lemma_plain(s: Seq<char>)
    requires
        forall|i: int| 0 <= i < s.len() ==> folder_char(#[trigger] s[i]) == s[i],
    ensures
        forall|i: int| 0 <= i < char_replaced(s, ' ', "_"@).len() ==> ({
            let c = #[trigger] char_replaced(s, ' ', "_"@)[i];
            is_ascii_alnum(c) || c == '-' || c == '_'
        }),
    decreases s.len(),
{
    reveal_strlit("_");
    if s.len() > 0 {
        assert forall|i: int| 0 <= i < s.drop_last().len() implies folder_char(
            #[trigger] s.drop_last()[i],
        ) == s.drop_last()[i] by {
            assert(s.drop_last()[i] == s[i]);
        }
        assert(folder_char(s[s.len() - 1]) == s[s.len() - 1]);
        lemma_plain(s.drop_last());
        let head = char_replaced(s.drop_last(), ' ', "_"@);
        let tail = if s.last() == ' ' {
            "_"@
        } else {
            seq![s.last()]
        };
        assert forall|i: int| 0 <= i < (head + tail).len() implies ({
            let c = #[trigger] (head + tail)[i];
            is_ascii_alnum(c) || c == '-' || c == '_'
        }) by {
            if i < head.len() {
                assert((head + tail)[i] == head[i]);
            } else {
                assert((head + tail)[i] == tail[i - head.len()]);
            }
        }
    }
}

/// A folder name stands for itself: made into a folder name again, it stays the same.
pub proof fn a_folder_name_is_its_own(name: Seq<char>)
    ensures
        folder_name(folder_name(name)) == folder_name(name),
{
    let r = folder_name(name);
    folder_name_is_plain(name);
    assert(!is_space(r[0]) && !is_space(r[r.len() - 1]));
    lemma_trimmed_bare(r, CharClass::Space);
    assert forall|i: int| 0 <= i < r.len() implies folder_char(#[trigger] r[i]) == r[i] by {}
    assert(r.map_values(|c: char| folder_char(c)) =~= r);
    let p = |x: char| x != ' ';
    assert forall|i: int| 0 <= i < r.len() implies p(#[trigger] r[i]) by {}
    lemma_char_replaced_none(r, ' ', "_"@);
}

/// Whatever a script is called, the stem made from its name holds nothing but ASCII letters, ASCII
/// digits, `-` and `_`, not only the last of them, and it is not empty; made into a stem again, it
/// stays the same.
pub proof fn a_stem_is_plain_and_its_own(name: Seq<char>)
    ensures
        safe_stem(name).len() > 0,
        forall|i: int| 0 <= i < safe_stem(name).len() ==> ({
            let c = #[trigger] safe_stem(name)[i];
            is_ascii_alnum(c) || c == '-' || c == '_'
        }),
        exists|i: int| 0 <= i < safe_stem(name).len() && #[trigger] safe_stem(name)[i] != '_',
        safe_stem(safe_stem(name)) == safe_stem(name),
{
    reveal_strlit("app");
    let r = safe_stem(name);
    lemma_trimmed_bare("app"@, CharClass::Underscore);
    lemma_trimmed_part(r, CharClass::Underscore);
    let a = lead(r, CharClass::Underscore) as int;
    assert(r[a] == trimmed_by(r, CharClass::Underscore)[0]);
    assert forall|i: int| 0 <= i < r.len() implies stem_char(#[trigger] r[i]) == r[i] by {
        if r != "app"@ {
            assert(r[i] == stem_char(name[i]));
        }
    }
    assert(r.map_values(|c: char| stem_char(c)) =~= r);
}

/// A folder is called like its project: letters, digits, `-` and `_` stay, and everything else becomes
/// an underscore, one for one.
pub proof fn folders_are_called_like_their_projects(name: Seq<char>, i: int)
    requires
        name.len() > 0,
        !is_space(name[0]),
        !is_space(name.last()),
    ensures
        folder_name(name).len() == name.len(),
        0 <= i < name.len() ==> folder_name(name)[i] == if is_ascii_alnum(name[i]) || name[i] == '-' {
            name[i]
        } else {
            '_'
        },
{
    reveal_strlit("_");
    let k = CharClass::Space;
    let kept = name.map_values(|c: char| folder_char(c));
    lemma_trimmed_bare(name, k);
    assert(kept[0] == folder_char(name[0]));
    assert(kept.last() == folder_char(name.last()));
    lemma_trimmed_bare(kept, k);
    lemma_char_swapped(kept, ' ', "_"@);
}

/// A program is called like its script: letters, digits, `-` and `_` stay, and everything else becomes
/// an underscore, one for one, as long as there is a letter, a digit or a `-` at all.
pub proof fn programs_are_called_like_their_scripts(name: Seq<char>, i: int, j: int)
    requires
        0 <= i < name.len(),
        0 <= j < name.len(),
        is_ascii_alnum(name[j]) || name[j] == '-',
    ensures
        safe_stem(name).len() == name.len(),
        safe_stem(name)[i] == if is_ascii_alnum(name[i]) || name[i] == '-' {
            name[i]
        } else {
            '_'
        },
{
    let kept = name.map_values(|c: char| stem_char(c));
    assert(kept[j] == name[j]);
    lemma_not_trimmed_away(kept, CharClass::Underscore, j);
}

// ---------------------------------------------------------------------------------------------
// The answer of a run
// ---------------------------------------------------------------------------------------------

/// The answer to a run that no model put into words.
pub open spec fn plain_answer(
    summary: Option<Seq<char>>,
    changed: Seq<Seq<char>>,
    action_count: nat,
    had_error: bool,
    auto_apply: bool,
    test_output: Seq<char>,
) -> Seq<char> {
    let head = match summary {
        Some(s) => if blank(s) {
            ""@
        } else {
            trimmed(s) + "\n\n"@
        },
        None => ""@,
    };
    let body = if action_count == 0 {
        "I understood the request. No file was changed in this run."@
    } else if !auto_apply {
        "The file actions were created, but auto-apply is off."@
    } else if changed.len() == 0 {
        "I checked, but no file was changed."@
    } else {
        "Changed: "@ + joined(changed, ", "@) + "."@
    };
    let errors = if had_error {
        "\n\nSome actions were blocked for safety or match-count reasons."@
    } else {
        ""@
    };
    let tests = if blank(test_output) {
        ""@
    } else {
        "\n\nTest/build was run."@
    };
    head + body + errors + tests
}

/// The answer to a run that no model put into words.
pub fn fallback_final_answer(
    summary: Option<&str>,
    changed_files: &Vec<String>,
    action_count: usize,
    had_error: bool,
    auto_apply: bool,
    test_output: &str,
) -> (r: String)
    ensures
        r@ == plain_answer(
            opt_str(summary),
            texts(changed_files@),
            action_count as nat,
            had_error,
            auto_apply,
            test_output@,
        ),
{
    let mut out: String = match summary {
        Some(s) => if is_blank(s) {
            "".to_owned()
        } else {
            let mut head: String = trim(s).to_owned();
            head.append("\n\n");
            head
        },
        None => "".to_owned(),
    };
    if action_count == 0 {
        out.append("I understood the request. No file was changed in this run.");
    } else if !auto_apply {
        out.append("The file actions were created, but auto-apply is off.");
    } else if changed_files.len() == 0 {
        assert(texts(changed_files@).len() == 0);
        out.append("I checked, but no file was changed.");
    } else {
        assert(texts(changed_files@).len() > 0);
        let mut body: String = "Changed: ".to_owned();
        body.append(join(changed_files, ", ").as_str());
        body.append(".");
        out.append(body.as_str());
    }
    proof {
        reveal_strlit("");
    }
    if had_error {
        out.append("\n\nSome actions were blocked for safety or match-count reasons.");
    } else {
        assert(out@ =~= out@ + ""@);
    }
    if !is_blank(test_output) {
        out.append("\n\nTest/build was run.");
    } else {
        assert(out@ =~= out@ + ""@);
    }
    out
}

/// The answer to a run begins with what was to be done, names every file that was changed, and says
/// where nothing was changed or applied, where actions were blocked, and where tests were run.
#[verifier::rlimit(40)]
pub proof fn answers_say_what_happened(
    summary: Option<Seq<char>>,
    changed: Seq<Seq<char>>,
    action_count: nat,
    had_error: bool,
    auto_apply: bool,
    test_output: Seq<char>,
    i: int,
)
    ensures
        ({
            let answer = plain_answer(
                summary,
                changed,
                action_count,
                had_error,
                auto_apply,
                test_output,
            );
            &&& summary matches Some(s) ==> !blank(s) ==> begins(answer, trimmed(s))
            &&& action_count == 0 ==> holds(
                answer,
                "I understood the request. No file was changed in this run."@,
            )
            &&& action_count > 0 && !auto_apply ==> holds(
                answer,
                "The file actions were created, but auto-apply is off."@,
            )
            &&& action_count > 0 && auto_apply && changed.len() == 0 ==> holds(
                answer,
                "I checked, but no file was changed."@,
            )
            &&& action_count > 0 && auto_apply && 0 <= i < changed.len() ==> holds(
                answer,
                changed[i],
            )
            &&& had_error ==> holds(
                answer,
                "Some actions were blocked for safety or match-count reasons."@,
            )
            &&& !blank(test_output) ==> ends(answer, "Test/build was run."@)
        }),
{
    let head = match summary {
        Some(s) => if blank(s) {
            ""@
        } else {
            trimmed(s) + "\n\n"@
        },
        None => ""@,
    };
    let body = if action_count == 0 {
        "I understood the request. No file was changed in this run."@
    } else if !auto_apply {
        "The file actions were created, but auto-apply is off."@
    } else if changed.len() == 0 {
        "I checked, but no file was changed."@
    } else {
        "Changed: "@ + joined(changed, ", "@) + "."@
    };
    let errors = if had_error {
        "\n\nSome actions were blocked for safety or match-count reasons."@
    } else {
        ""@
    };
    let tests = if blank(test_output) {
        ""@
    } else {
        "\n\nTest/build was run."@
    };
    let answer = head + body + errors + tests;
    lemma_four_parts(head, body, errors, tests);
    match summary {
        Some(s) => {
            if !blank(s) {
                lemma_begins_with_first(trimmed(s), "\n\n"@, answer);
            }
        },
        None => {},
    }
    if action_count > 0 && auto_apply && 0 <= i < changed.len() {
        lemma_joined_holds(changed, ", "@, i);
        lemma_holds_middle("Changed: "@, joined(changed, ", "@), "."@);
        lemma_holds_part(body, joined(changed, ", "@), changed[i]);
        lemma_holds_part(answer, body, changed[i]);
    }
    if had_error {
        lemma_blocked();
        lemma_holds_part(
            answer,
            errors,
            "Some actions were blocked for safety or match-count reasons."@,
        );
    }
    if !blank(test_output) {
        lemma_tested(answer);
    }
}

/// What a text of four parts holds, and how it begins and ends.
proof fn lemma_four_parts(a: Seq<char>, b: Seq<char>, c: Seq<char>, d: Seq<char>)
    ensures
        begins(a + b + c + d, a),
        holds(a + b + c + d, b),
        holds(a + b + c + d, c),
        ends(a + b + c + d, d),
{
    let all = a + b + c + d;
    assert(all.subrange(0, a.len() as int) =~= a);
    lemma_holds_middle(a, b, c + d);
    assert(a + b + (c + d) =~= all);
    lemma_holds_middle(a + b, c, d);
    assert(all.subrange(all.len() - d.len(), all.len() as int) =~= d);
}

/// A text that begins with two texts begins with the first of them.
proof fn lemma_begins_with_first(a: Seq<char>, b: Seq<char>, s: Seq<char>)
    requires
        begins(s, a + b),
    ensures
        begins(s, a),
{
    assert(s.subrange(0, a.len() as int) =~= s.subrange(0, (a + b).len() as int).subrange(
        0,
        a.len() as int,
    ));
    assert((a + b).subrange(0, a.len() as int) =~= a);
}

/// The note on blocked actions, without the empty line before it.
proof fn lemma_blocked()
    ensures
        holds(
            "\n\nSome actions were blocked for safety or match-count reasons."@,
            "Some actions were blocked for safety or match-count reasons."@,
        ),
{
    reveal_strlit("\n\nSome actions were blocked for safety or match-count reasons.");
    reveal_strlit("Some actions were blocked for safety or match-count reasons.");
    let s = "\n\nSome actions were blocked for safety or match-count reasons."@;
    let t = "Some actions were blocked for safety or match-count reasons."@;
    assert(s.subrange(2, 2int + t.len()) =~= t);
    assert(occurs_at(s, t, 2));
}

/// The note on tests, without the empty line before it.
proof fn lemma_tested(s: Seq<char>)
    requires
        ends(s, "\n\nTest/build was run."@),
    ensures
        ends(s, "Test/build was run."@),
{
    reveal_strlit("\n\nTest/build was run.");
    reveal_strlit("Test/build was run.");
    let long = "\n\nTest/build was run."@;
    let t = "Test/build was run."@;
    let n = s.len() - long.len();
    assert(s.subrange(n, s.len() as int) == long);
    assert(long.subrange(2, long.len() as int) =~= t);
    assert(s.subrange(n + 2, s.len() as int) =~= s.subrange(n, s.len() as int).subrange(
        2,
        long.len() as int,
    ));
}

/// The answer where no decision of the coordinator could be had.
pub fn coordinator_direct_fallback(user_request: &str, reason: &str) -> (r: String)
    ensures
        r@ == "Ich habe verstanden, worum es geht: "@ + trimmed(user_request@) + "\n\n"@ + reason@,
{
    let mut out: String = "Ich habe verstanden, worum es geht: ".to_owned();
    out.append(trim(user_request));
    out.append("\n\n");
    out.append(reason);
    out
}

// ---------------------------------------------------------------------------------------------
// What a model said
// ---------------------------------------------------------------------------------------------

/// `s`, or the reply that was found in it.
pub open spec fn reply_or(s: Seq<char>, found: Option<Seq<char>>) -> Seq<char> {
    match found {
        Some(reply) => trimmed(reply),
        None => s,
    }
}

/// A whole answer of the model server, rather than the reply in it.
pub open spec fn raw_reply(s: Seq<char>) -> bool {
    holds(s, "\"model\""@) && holds(s, "\"created_at\""@) && holds(s, "\"response\""@)
}

/// A text that speaks of file actions.
pub open spec fn speaks_of_actions(s: Seq<char>) -> bool {
    ||| begins(trimmed_start(s, CharClass::Space), "{\"actions\""@)
    ||| holds(s, "\"actions\""@)
    ||| holds(s, "\"op\":\"write\""@)
    ||| holds(s, "\"op\":\"delete\""@)
}

/// What is shown of a reply: all of it, unless it speaks of file actions.
pub open spec fn shown(s: Seq<char>) -> Seq<char> {
    if speaks_of_actions(s) {
        "I understood your request. I hide internal file actions in the UI and answer normally."@
    } else {
        trimmed(replaced(s, "\r\n"@, "\n"@))
    }
}

/// What is shown of what a model said.
pub open spec fn visible(raw: Seq<char>) -> Seq<char> {
    let whole = trimmed(raw);
    let once = reply_or(whole, json_text(whole, "response"@));
    let twice = if raw_reply(once) {
        reply_or(once, json_text(once, "response"@))
    } else {
        once
    };
    shown(twice)
}

/// What a model says is shown as it says it, without the white space around it; where a reply is
/// found in it, that reply is; and what holds file actions is never shown.
pub proof fn replies_are_shown_as_they_are(raw: Seq<char>, reply: Seq<char>)
    ensures
        json_text(trimmed(raw), "response"@) is None && !raw_reply(trimmed(raw)) && !holds(
            trimmed(raw),
            "\"actions\""@,
        ) && !holds(trimmed(raw), "\"op\":\"write\""@) && !holds(
            trimmed(raw),
            "\"op\":\"delete\""@,
        ) && !holds(trimmed(raw), "\r\n"@) ==> visible(raw) == trimmed(raw),
        json_text(trimmed(raw), "response"@) == Some(reply) && !raw_reply(trimmed(reply)) && !holds(
            trimmed(reply),
            "\"actions\""@,
        ) && !holds(trimmed(reply), "\"op\":\"write\""@) && !holds(
            trimmed(reply),
            "\"op\":\"delete\""@,
        ) && !holds(trimmed(reply), "\r\n"@) ==> visible(raw) == trimmed(reply),
        holds(reply, "\"actions\""@) || holds(reply, "\"op\":\"write\""@) || holds(
            reply,
            "\"op\":\"delete\""@,
        ) ==> shown(reply)
            == "I understood your request. I hide internal file actions in the UI and answer normally."@,
{
    lemma_shown_whole(raw);
    lemma_shown_whole(reply);
}

/// A reply inside a reply is found: where the reply of the server is a whole answer of the server
/// again, what is shown is the reply in that.
pub proof fn replies_inside_replies_are_found(raw: Seq<char>, reply: Seq<char>, inner: Seq<char>)
    requires
        json_text(trimmed(raw), "response"@) == Some(reply),
        holds(trimmed(reply), "\"model\""@),
        holds(trimmed(reply), "\"created_at\""@),
        holds(trimmed(reply), "\"response\""@),
        json_text(trimmed(reply), "response"@) == Some(inner),
        !holds(trimmed(inner), "\"actions\""@),
        !holds(trimmed(inner), "\"op\":\"write\""@),
        !holds(trimmed(inner), "\"op\":\"delete\""@),
        !holds(trimmed(inner), "\r\n"@),
    ensures
        visible(raw) == trimmed(inner),
{
    lemma_shown_whole(inner);
}

/// Line ends are shown alike: a carriage return before a line feed is left out, and nothing else.
#[verifier::rlimit(40)]
pub proof fn line_ends_are_shown_alike(a: Seq<char>, b: Seq<char>)
    requires
        a.len() > 0 && !is_space(a[0]),
        b.len() > 0 && !is_space(b.last()),
        !a.contains('\r'),
        !holds(b, "\r\n"@),
        !holds(a + "\r\n"@ + b, "\"actions\""@),
        !holds(a + "\r\n"@ + b, "\"op\":\"write\""@),
        !holds(a + "\r\n"@ + b, "\"op\":\"delete\""@),
    ensures
        shown(a + "\r\n"@ + b) == a + "\n"@ + b,
{
    reveal_strlit("\r\n");
    reveal_strlit("\n");
    let k = CharClass::Space;
    let all = a + "\r\n"@ + b;
    assert(all[0] == a[0]);
    assert(lead(all, k) == 0);
    assert(trimmed_start(all, k) =~= all);
    lemma_no_actions_at_the_front(all);
    assert forall|j: int| 0 <= j < a.len() implies !occurs_at(all, "\r\n"@, j) by {
        if occurs_at(all, "\r\n"@, j) {
            assert(all.subrange(j, j + 2)[0] == '\r');
            assert(a.contains(a[j]));
        }
    }
    every_place_is_replaced(a, "\r\n"@, b, "\n"@);
    let r = a + "\n"@ + b;
    assert(r[0] == a[0] && r.last() == b.last());
    lemma_trimmed_bare(r, k);
}

/// A text that does not hold the word for actions does not begin with a list of them.
proof fn lemma_no_actions_at_the_front(t: Seq<char>)
    requires
        !holds(t, "\"actions\""@),
    ensures
        !begins(t, "{\"actions\""@),
{
    reveal_strlit("{\"actions\"");
    reveal_strlit("\"actions\"");
    let long = "{\"actions\""@;
    let part = "\"actions\""@;
    if begins(t, long) {
        assert(long.subrange(1, long.len() as int) =~= part);
        assert(t.subrange(1, long.len() as int) =~= t.subrange(0, long.len() as int).subrange(
            1,
            long.len() as int,
        ));
        assert(occurs_at(t, part, 1));
    }
}

/// A text without file actions and without carriage returns at its line ends is shown whole.
#[verifier::rlimit(40)]
proof fn lemma_shown_whole(s: Seq<char>)
    ensures
        !holds(trimmed(s), "\"actions\""@) && !holds(trimmed(s), "\"op\":\"write\""@) && !holds(
            trimmed(s),
            "\"op\":\"delete\""@,
        ) && !holds(trimmed(s), "\r\n"@) ==> shown(trimmed(s)) == trimmed(s),
{
    let k = CharClass::Space;
    let t = trimmed(s);
    lemma_trimmed_part(s, k);
    lemma_trimmed_bare(t, k);
    assert(lead(t, k) == 0);
    assert(trimmed_start(t, k) =~= t);
    if !holds(t, "\"actions\""@) && !holds(t, "\r\n"@) {
        lemma_no_actions_at_the_front(t);
        reveal_strlit("\r\n");
        assert forall|j: int| !occurs_at(t, "\r\n"@, j) by {}
        let none = Seq::<char>::empty();
        if t.len() >= 2 {
            every_place_is_replaced(none, "\r\n"@, t, "\n"@);
        }
    }
}

/// `s`, or the reply that was found in it.
pub fn reply_in(s: &str, found: Option<String>) -> (r: String)
    ensures
        r@ == reply_or(s@, opt_text(found)),
{
    match found {
        Some(reply) => trim(reply.as_str()).to_owned(),
        None => s.to_owned(),
    }
}

/// Whether `s` is a whole answer of the model server.
pub fn is_raw_reply(s: &str) -> (r: bool)
    ensures
        r == raw_reply(s@),
{
    contains(s, "\"model\"") && contains(s, "\"created_at\"") && contains(s, "\"response\"")
}

/// What is shown of a reply.
pub fn shown_reply(s: &str) -> (r: String)
    ensures
        r@ == shown(s@),
{
    if starts_with(trim_start_by(s, CharClass::Space), "{\"actions\"") || contains(s, "\"actions\"")
        || contains(s, "\"op\":\"write\"") || contains(s, "\"op\":\"delete\"") {
        "I understood your request. I hide internal file actions in the UI and answer normally.".to_owned()
    } else {
        proof {
            reveal_strlit("\r\n");
        }
        let text = replace(s, "\r\n", "\n");
        trim(text.as_str()).to_owned()
    }
}

/// What is shown of what a model said.
pub fn clean_visible_answer(raw: &str) -> (r: String)
    ensures
        r@ == visible(raw@),
{
    let whole = trim(raw);
    let found = json_text_field(whole, "response");
    let once = reply_in(whole, found);
    if is_raw_reply(once.as_str()) {
        let again = json_text_field(once.as_str(), "response");
        let twice = reply_in(once.as_str(), again);
        shown_reply(twice.as_str())
    } else {
        shown_reply(once.as_str())
    }
}

/// A piece of a chat message as it is drawn.
#[derive(Debug)]
pub enum ChatPiece<T> {
    /// A line of text.
    Line(T),
    /// An empty line.
    Gap,
    /// A block of code with the language it names.
    Code { language: T, code: T },
}

impl View for ChatPiece<String> {
    type V = ChatPiece<Seq<char>>;

    open spec fn view(&self) -> ChatPiece<Seq<char>> {
        match self {
            ChatPiece::Line(line) => ChatPiece::Line(line@),
            ChatPiece::Gap => ChatPiece::Gap,
            ChatPiece::Code { language, code } => ChatPiece::Code {
                language: language@,
                code: code@,
            },
        }
    }
}

/// What a list of pieces says.
pub open spec fn pieces(v: Seq<ChatPiece<String>>) -> Seq<ChatPiece<Seq<char>>> {
    v.map_values(|p: ChatPiece<String>| p@)
}

/// A line that begins or ends a block of code.
pub open spec fn is_fence(line: Seq<char>) -> bool {
    begins(trimmed(line), "```"@)
}

/// The pieces of the given lines. `open` is the block of code that the lines begin in, with its
/// language: it lasts until a fence, or until the end unless nothing stands in it.
pub open spec fn chat_pieces(
    all: Seq<Seq<char>>,
    open: Option<(Seq<char>, Seq<char>)>,
) -> Seq<ChatPiece<Seq<char>>>
    decreases all.len(),
{
    if all.len() == 0 {
        match open {
            Some((language, block)) => if block.len() == 0 {
                Seq::empty()
            } else {
                seq![ChatPiece::Code { language, code: trimmed_end(block, CharClass::Space) }]
            },
            None => Seq::empty(),
        }
    } else {
        let line = all[0];
        let rest = all.skip(1);
        match open {
            Some((language, block)) => if is_fence(line) {
                seq![ChatPiece::Code { language, code: trimmed_end(block, CharClass::Space) }]
                    + chat_pieces(rest, None)
            } else {
                chat_pieces(rest, Some((language, block + line + "\n"@)))
            },
            None => if is_fence(line) {
                chat_pieces(rest, Some((trimmed(trimmed(line).skip(3)), ""@)))
            } else if line.len() == 0 {
                seq![ChatPiece::Gap] + chat_pieces(rest, None)
            } else {
                seq![ChatPiece::Line(line)] + chat_pieces(rest, None)
            },
        }
    }
}

/// Lines, each with a line feed behind it.
pub open spec fn ended_lines(all: Seq<Seq<char>>) -> Seq<char>
    decreases all.len(),
{
    if all.len() == 0 {
        ""@
    } else {
        ended_lines(all.drop_last()) + all.last() + "\n"@
    }
}

/// A block of code goes on up to the next fence.
proof fn lemma_block(
    language: Seq<char>,
    block: Seq<char>,
    code: Seq<Seq<char>>,
    rest: Seq<Seq<char>>,
)
    requires
        forall|i: int| 0 <= i < code.len() ==> !is_fence(#[trigger] code[i]),
    ensures
        chat_pieces(code + rest, Some((language, block))) == chat_pieces(
            rest,
            Some((language, block + ended_lines(code))),
        ),
    decreases code.len(),
{
    reveal_strlit("");
    if code.len() == 0 {
        assert(code + rest =~= rest);
        assert(block + ended_lines(code) =~= block);
    } else {
        let shorter = code.drop_last();
        let last = seq![code.last()] + rest;
        assert forall|i: int| 0 <= i < shorter.len() implies !is_fence(#[trigger] shorter[i]) by {
            assert(!is_fence(code[i]));
        }
        assert(!is_fence(code[code.len() - 1]));
        assert(code + rest =~= shorter + last);
        lemma_block(language, block, shorter, last);
        assert(last[0] == code.last());
        assert(last.skip(1) =~= rest);
        assert(block + ended_lines(shorter) + code.last() + "\n"@ =~= block + ended_lines(code));
    }
}

/// A message is drawn line by line, empty lines as gaps; lines between two fences are drawn as one
/// block of code, all of them and nothing else, with the language behind the first fence.
pub proof fn messages_are_drawn_in_order(
    line: Seq<char>,
    open: Seq<char>,
    code: Seq<Seq<char>>,
    close: Seq<char>,
    rest: Seq<Seq<char>>,
)
    requires
        !is_fence(line),
        begins(trimmed(open), "```"@),
        begins(trimmed(close), "```"@),
        forall|i: int| 0 <= i < code.len() ==> !is_fence(#[trigger] code[i]),
    ensures
        line.len() > 0 ==> chat_pieces(seq![line] + rest, None) == seq![ChatPiece::Line(line)]
            + chat_pieces(rest, None),
        line.len() == 0 ==> chat_pieces(seq![line] + rest, None) == seq![
            ChatPiece::<Seq<char>>::Gap,
        ] + chat_pieces(rest, None),
        chat_pieces(seq![open] + code + seq![close] + rest, None) == seq![
            ChatPiece::Code {
                language: trimmed(trimmed(open).skip(3)),
                code: trimmed_end(ended_lines(code), CharClass::Space),
            },
        ] + chat_pieces(rest, None),
{
    reveal_strlit("");
    let one = seq![line] + rest;
    assert(one[0] == line);
    assert(one.skip(1) =~= rest);
    let all = seq![open] + code + seq![close] + rest;
    let last = seq![close] + rest;
    assert(all[0] == open);
    assert(all.skip(1) =~= code + last);
    lemma_block(trimmed(trimmed(open).skip(3)), ""@, code, last);
    assert(""@ + ended_lines(code) =~= ended_lines(code));
    assert(last[0] == close);
    assert(last.skip(1) =~= rest);
}

/// The pieces of a chat message, in the order in which they are drawn.
pub fn render_chat_message(text: &str) -> (r: Vec<ChatPiece<String>>)
    ensures
        pieces(r@) == chat_pieces(lines(text@), None),
{
    let all = split_lines(text);
    let n: usize = all.len();
    let mut out: Vec<ChatPiece<String>> = Vec::new();
    let mut open: Option<(String, String)> = None;
    let mut i: usize = 0;
    let ghost model = lines(text@);
    assert(model.len() == n);
    assert(model.skip(0) =~= model);
    assert(pieces(out@) =~= Seq::<ChatPiece<Seq<char>>>::empty());
    assert(pieces(out@) + chat_pieces(model, None) =~= chat_pieces(model, None));
    while i < n
        invariant
            i <= n == all@.len(),
            model == texts(all@),
            pieces(out@) + chat_pieces(model.skip(i as int), open_view(open)) == chat_pieces(
                model,
                None,
            ),
        decreases n - i,
    {
        let ghost before = out@;
        let ghost rest = model.skip(i as int);
        assert(rest.skip(1) =~= model.skip(i + 1));
        let line = all[i].as_str();
        assert(rest[0] == line@);
        let t = trim(line);
        let fence = starts_with(t, "```");
        match open {
            Some((language, block)) => {
                if fence {
                    let code = trim_end_by(block.as_str(), CharClass::Space).to_owned();
                    let piece = ChatPiece::Code { language, code };
                    out.push(piece);
                    assert(pieces(out@) =~= pieces(before) + seq![piece@]);
                    assert(pieces(before) + (seq![piece@] + chat_pieces(model.skip(i + 1), None))
                        =~= pieces(out@) + chat_pieces(model.skip(i + 1), None));
                    open = None;
                } else {
                    let mut longer = block;
                    longer.append(line);
                    longer.append("\n");
                    open = Some((language, longer));
                }
            },
            None => {
                if fence {
                    proof {
                        reveal_strlit("```");
                    }
                    open = Some((trim(skip_chars(t, 3)).to_owned(), "".to_owned()));
                } else {
                    let piece = if line.is_empty() {
                        ChatPiece::Gap
                    } else {
                        ChatPiece::Line(line.to_owned())
                    };
                    out.push(piece);
                    assert(pieces(out@) =~= pieces(before) + seq![piece@]);
                    assert(pieces(before) + (seq![piece@] + chat_pieces(model.skip(i + 1), None))
                        =~= pieces(out@) + chat_pieces(model.skip(i + 1), None));
                    open = None;
                }
            },
        }
        i += 1;
    }
    let ghost before = out@;
    assert(model.skip(n as int).len() == 0);
    match open {
        Some((language, block)) => {
            if !block.as_str().is_empty() {
                let code = trim_end_by(block.as_str(), CharClass::Space).to_owned();
                let piece = ChatPiece::Code { language, code };
                out.push(piece);
                assert(pieces(out@) =~= pieces(before) + seq![piece@]);
            } else {
                assert(pieces(out@) =~= pieces(before) + Seq::empty());
            }
        },
        None => {
            assert(pieces(out@) =~= pieces(before) + Seq::empty());
        },
    }
    out
}

/// What an open block of code says.
pub open spec fn open_view(open: Option<(String, String)>) -> Option<(Seq<char>, Seq<char>)> {
    match open {
        Some((language, block)) => Some((language@, block@)),
        None => None,
    }
}

// ---------------------------------------------------------------------------------------------
// The log
// ---------------------------------------------------------------------------------------------

/// A log line that reports a failure. Lines that only record what was sent are left out.
pub open spec fn reports_failure(line: Seq<char>) -> bool {
    let lower = ascii_lower(line);
    &&& !line.contains('\n')
    &&& !begins(line, "TRAFFIC "@)
    &&& {
        ||| begins(lower, "ollama error:"@)
        ||| holds(lower, " failed:"@)
        ||| holds(lower, " failed."@)
        ||| holds(lower, "could not"@)
        ||| holds(lower, "fehlgeschlagen"@)
        ||| holds(lower, "blocked:"@)
        ||| holds(lower, "timeout"@)
        ||| holds(lower, "keine sicheren actions"@)
    }
}

/// The words by which a failure is known, whatever their capitals; a line about what was sent, or a
/// text of several lines, is no report of a failure, and neither is one without any of the words.
pub proof fn failures_are_known_by_their_words(line: Seq<char>)
    ensures
        line.contains('\n') || begins(line, "TRAFFIC "@) ==> !reports_failure(line),
        !line.contains('\n') && !begins(line, "TRAFFIC "@) ==> {
            &&& holds(ascii_lower(line), " failed:"@) ==> reports_failure(line)
            &&& holds(ascii_lower(line), " failed."@) ==> reports_failure(line)
            &&& holds(ascii_lower(line), "could not"@) ==> reports_failure(line)
            &&& holds(ascii_lower(line), "fehlgeschlagen"@) ==> reports_failure(line)
            &&& holds(ascii_lower(line), "blocked:"@) ==> reports_failure(line)
            &&& holds(ascii_lower(line), "timeout"@) ==> reports_failure(line)
            &&& holds(ascii_lower(line), "keine sicheren actions"@) ==> reports_failure(line)
            &&& begins(ascii_lower(line), "ollama error:"@) ==> reports_failure(line)
        },
        reports_failure(line) ==> holds(ascii_lower(line), " failed"@) || holds(
            ascii_lower(line),
            "could not"@,
        ) || holds(ascii_lower(line), "fehlgeschlagen"@) || holds(ascii_lower(line), "blocked:"@)
            || holds(ascii_lower(line), "timeout"@) || holds(
            ascii_lower(line),
            "keine sicheren actions"@,
        ) || begins(ascii_lower(line), "ollama error:"@),
{
    let lower = ascii_lower(line);
    reveal_strlit(" failed:");
    reveal_strlit(" failed.");
    reveal_strlit(" failed");
    if holds(lower, " failed:"@) {
        lemma_begins(" failed:"@, " failed"@);
        lemma_holds_part(lower, " failed:"@, " failed"@);
    }
    if holds(lower, " failed."@) {
        lemma_begins(" failed."@, " failed"@);
        lemma_holds_part(lower, " failed."@, " failed"@);
    }
}

/// A text holds what it begins with.
proof fn lemma_begins(s: Seq<char>, t: Seq<char>)
    requires
        t.len() <= s.len(),
        forall|i: int| 0 <= i < t.len() ==> #[trigger] s[i] == t[i],
    ensures
        holds(s, t),
{
    assert(s.subrange(0, t.len() as int) =~= t);
    assert(occurs_at(s, t, 0));
}

/// Whether a log line reports a failure.
pub fn is_actual_error_log_line(line: &str) -> (r: bool)
    ensures
        r == reports_failure(line@),
{
    if contains_char(line, '\n') || starts_with(line, "TRAFFIC ") {
        return false;
    }
    let lower = to_ascii_lower(line);
    let l = lower.as_str();
    starts_with(l, "ollama error:") || contains(l, " failed:") || contains(l, " failed.")
        || contains(l, "could not") || contains(l, "fehlgeschlagen") || contains(l, "blocked:")
        || contains(l, "timeout") || contains(l, "keine sicheren actions")
}

// ---------------------------------------------------------------------------------------------
// Output of commands
// ---------------------------------------------------------------------------------------------

/// `code` as the debugger writes an optional number.
pub open spec fn code_text(code: Option<i32>) -> Seq<char> {
    match code {
        None => "None"@,
        Some(c) => if c < 0 {
            "Some(-"@ + decimal((-c) as nat) + ")"@
        } else {
            "Some("@ + decimal(c as nat) + ")"@
        },
    }
}

/// `code` as the debugger writes an optional number.
pub fn exit_code_text(code: Option<i32>) -> (r: String)
    ensures
        r@ == code_text(code),
{
    match code {
        None => "None".to_owned(),
        Some(c) => {
            let n: i64 = c as i64;
            if n < 0 {
                let mut out: String = "Some(-".to_owned();
                out.append(to_decimal((-n) as u128).as_str());
                out.append(")");
                out
            } else {
                let mut out: String = "Some(".to_owned();
                out.append(to_decimal(n as u128).as_str());
                out.append(")");
                out
            }
        },
    }
}

/// What both streams of a command held, or its exit code where they held nothing.
pub open spec fn output_text(out: Seq<char>, err: Seq<char>, code: Option<i32>) -> Seq<char> {
    if blank(out + err) {
        "Exit-Code: "@ + code_text(code)
    } else {
        out + err
    }
}

/// What both streams of a shell command held, or its exit code where they held nothing.
pub open spec fn shell_text(out: Seq<char>, err: Seq<char>, code: Option<i32>) -> Seq<char> {
    if blank(out + err) {
        "Command finished. Exit code: "@ + code_text(code)
    } else {
        out + err
    }
}

/// What a command printed is told whole, first what it said and behind it its errors; where it printed
/// nothing, its exit code is told.
pub proof fn output_is_told_whole(out: Seq<char>, err: Seq<char>, code: Option<i32>)
    ensures
        !blank(out + err) ==> {
            &&& output_text(out, err, code) == out + err
            &&& shell_text(out, err, code) == out + err
        },
        blank(out + err) ==> {
            &&& holds(output_text(out, err, code), code_text(code))
            &&& holds(shell_text(out, err, code), code_text(code))
        },
        code matches Some(c) ==> c >= 0 ==> code_text(code) == "Some("@ + decimal(c as nat) + ")"@,
        code matches Some(c) ==> c < 0 ==> holds(code_text(code), decimal((0 - c) as nat)) && begins(
            code_text(code),
            "Some(-"@,
        ),
{
    let told = code_text(code);
    let none = Seq::<char>::empty();
    lemma_holds_middle("Exit-Code: "@, told, none);
    assert("Exit-Code: "@ + told + none =~= "Exit-Code: "@ + told);
    lemma_holds_middle("Command finished. Exit code: "@, told, none);
    assert("Command finished. Exit code: "@ + told + none =~= "Command finished. Exit code: "@
        + told);
    match code {
        Some(c) => {
            if c < 0 {
                lemma_holds_middle("Some(-"@, decimal((0 - c) as nat), ")"@);
                lemma_four_parts("Some(-"@, decimal((0 - c) as nat), ")"@, none);
                assert("Some(-"@ + decimal((0 - c) as nat) + ")"@ + none =~= told);
            }
        },
        None => {},
    }
}

/// What the two texts of a command say together.
pub fn joined_output(out: &str, err: &str, code: Option<i32>) -> (r: String)
    ensures
        r@ == output_text(out@, err@, code),
{
    let mut text: String = out.to_owned();
    text.append(err);
    if is_blank(text.as_str()) {
        let mut note: String = "Exit-Code: ".to_owned();
        note.append(exit_code_text(code).as_str());
        note
    } else {
        text
    }
}

/// What a command printed, or its exit code where it printed nothing.
pub fn command_output_text(stdout: &[u8], stderr: &[u8], code: Option<i32>) -> (r: String)
    ensures
        r@ == output_text(decoded(stdout@), decoded(stderr@), code),
{
    let out = lossy_text(stdout);
    let err = lossy_text(stderr);
    joined_output(out.as_str(), err.as_str(), code)
}

/// What the two texts of a shell command say together.
pub fn joined_shell_output(out: &str, err: &str, code: Option<i32>) -> (r: String)
    ensures
        r@ == shell_text(out@, err@, code),
{
    let mut text: String = out.to_owned();
    text.append(err);
    if is_blank(text.as_str()) {
        let mut note: String = "Command finished. Exit code: ".to_owned();
        note.append(exit_code_text(code).as_str());
        note
    } else {
        text
    }
}

/// What is reported of a shell command: what it printed, or its exit code where it printed
/// nothing.
pub fn run_shell(stdout: &[u8], stderr: &[u8], code: Option<i32>) -> (r: String)
    ensures
        r@ == shell_text(decoded(stdout@), decoded(stderr@), code),
{
    let out = lossy_text(stdout);
    let err = lossy_text(stderr);
    joined_shell_output(out.as_str(), err.as_str(), code)
}

/// What is reported of a command that was stopped after `secs` seconds, with what it had printed.
pub fn timeout_text(secs: u64, output: &str) -> (r: String)
    ensures
        r@ == if blank(output@) {
            "Timeout nach "@ + decimal(secs as nat) + " Sekunden."@
        } else {
            "Timeout nach "@ + decimal(secs as nat) + " Sekunden.\n"@ + shortened(output@, 1200)
        },
{
    let mut out: String = "Timeout nach ".to_owned();
    out.append(to_decimal(secs as u128).as_str());
    if is_blank(output) {
        out.append(" Sekunden.");
    } else {
        out.append(" Sekunden.\n");
        out.append(truncate_text(output, 1200).as_str());
    }
    out
}

/// What is reported of a program that was still running when its trial ended.
pub fn smoke_timeout_text(output: &str) -> (r: String)
    ensures
        r@ == if blank(output@) {
            "Smoke test ended after timeout."@
        } else {
            "Smoke test timeout. Output so far:\n"@ + output@
        },
{
    if is_blank(output) {
        "Smoke test ended after timeout.".to_owned()
    } else {
        let mut out: String = "Smoke test timeout. Output so far:\n".to_owned();
        out.append(output);
        out
    }
}

} // verus!
