//! What a message says, apart from its spelling, and the small talk that needs no agent.

use vstd::prelude::*;
use crate::chars::{ascii_small, is_space, CharClass};
use crate::outside::{lowered, to_lowercase};
use crate::text::{
    all_ascii, ascii_lower, char_replaced, is_word, join, joined, lemma_char_replaced_add,
    lemma_char_replaced_none, lemma_char_replaced_only, lemma_joined_words, lemma_trimmed_bare, lemma_words, only, opt_text,
    replace_char, single_blanks, split_words, text_is, trim, trimmed, words,
};

verus! {

/// German umlauts and the sharp s, spelled out in plain letters.
pub open spec fn spelled_out(s: Seq<char>) -> Seq<char> {
    char_replaced(
        char_replaced(
            char_replaced(char_replaced(s, '\u{e4}', "ae"@), '\u{f6}', "oe"@),
            '\u{fc}',
            "ue"@,
        ),
        '\u{df}',
        "ss"@,
    )
}

/// The words of a text in small letters, umlauts spelled out, with one blank between them.
pub open spec fn intent_form(lower: Seq<char>) -> Seq<char> {
    joined(words(spelled_out(lower)), " "@)
}

/// The form in which a message is compared with what the library understands.
pub open spec fn intent_of(text: Seq<char>) -> Seq<char> {
    intent_form(lowered(trimmed(text)))
}

/// A greeting, in the form that messages are compared in.
pub open spec fn is_greeting(intent: Seq<char>) -> bool {
    ||| intent == "hallo"@
    ||| intent == "hi"@
    ||| intent == "hey"@
    ||| intent == "servus"@
    ||| intent == "moin"@
    ||| intent == "guten tag"@
    ||| intent == "guten morgen"@
    ||| intent == "guten abend"@
}

/// A thank-you, in the form that messages are compared in.
pub open spec fn is_thanks(intent: Seq<char>) -> bool {
    intent == "danke"@ || intent == "dankeschon"@ || intent == "danke dir"@
}

/// The answer to small talk; `None` for everything else.
pub open spec fn small_talk_answer(intent: Seq<char>) -> Option<Seq<char>> {
    if is_greeting(intent) {
        Some("Hello. I am ready. Tell me what to do in the selected project."@)
    } else if is_thanks(intent) {
        Some("You're welcome."@)
    } else {
        None
    }
}

/// None of the umlauts, and not the sharp s.
pub open spec fn no_umlaut(c: char) -> bool {
    c != '\u{e4}' && c != '\u{f6}' && c != '\u{fc}' && c != '\u{df}'
}

/// Spelling out leaves no umlaut, and otherwise only characters that stood there or small ASCII
/// letters.
proof fn lemma_spelled_out(s: Seq<char>, p: spec_fn(char) -> bool)
    requires
        only(s, p),
        p('a'),
        p('e'),
        p('o'),
        p('u'),
        p('s'),
    ensures
        only(spelled_out(s), |c: char| p(c) && no_umlaut(c)),
{
    reveal_strlit("ae");
    reveal_strlit("oe");
    reveal_strlit("ue");
    reveal_strlit("ss");
    let p1 = |c: char| p(c) && c != '\u{e4}';
    let p2 = |c: char| p1(c) && c != '\u{f6}';
    let p3 = |c: char| p2(c) && c != '\u{fc}';
    let p4 = |c: char| p(c) && no_umlaut(c);
    let a = char_replaced(s, '\u{e4}', "ae"@);
    let b = char_replaced(a, '\u{f6}', "oe"@);
    let c = char_replaced(b, '\u{fc}', "ue"@);
    lemma_char_replaced_only(s, '\u{e4}', "ae"@, p, p1);
    lemma_char_replaced_only(a, '\u{f6}', "oe"@, p1, p2);
    lemma_char_replaced_only(b, '\u{fc}', "ue"@, p2, p3);
    lemma_char_replaced_only(c, '\u{df}', "ss"@, p3, p4);
}

/// A text without umlauts is left alone.
proof fn lemma_nothing_to_spell_out(s: Seq<char>)
    requires
        only(s, |c: char| no_umlaut(c)),
    ensures
        spelled_out(s) == s,
{
    let p = |c: char| no_umlaut(c);
    assert forall|i: int| 0 <= i < s.len() implies no_umlaut(#[trigger] s[i]) by {
        assert(p(s[i]));
    }
    lemma_char_replaced_none(s, '\u{e4}', "ae"@);
    lemma_char_replaced_none(s, '\u{f6}', "oe"@);
    lemma_char_replaced_none(s, '\u{fc}', "ue"@);
    lemma_char_replaced_none(s, '\u{df}', "ss"@);
}

/// The form in which messages are compared is made of what stood in the text, small ASCII letters
/// and blanks.
proof fn lemma_intent_form(lower: Seq<char>, p: spec_fn(char) -> bool)
    requires
        only(lower, p),
        p('a'),
        p('e'),
        p('o'),
        p('u'),
        p('s'),
        p(' '),
    ensures
        only(intent_form(lower), |c: char| p(c) && no_umlaut(c)),
        single_blanks(intent_form(lower)),
        words(intent_form(lower)) == words(spelled_out(lower)),
        intent_form(lower).len() > 0 ==> !is_space(intent_form(lower)[0]) && !is_space(
            intent_form(lower).last(),
        ),
{
    let q = |c: char| p(c) && no_umlaut(c);
    lemma_spelled_out(lower, p);
    lemma_words(spelled_out(lower), q);
    lemma_joined_words(words(spelled_out(lower)), q);
}

/// The form in which messages are compared is a form that nothing more can be done to: it holds no
/// umlaut, white space only as single blanks between words, and it is its own form.
pub proof fn the_form_is_its_own_form(lower: Seq<char>)
    ensures
        intent_form(intent_form(lower)) == intent_form(lower),
        only(intent_form(lower), |c: char| no_umlaut(c)),
        single_blanks(intent_form(lower)),
{
    let p = |c: char| true;
    assert(only(lower, p));
    lemma_intent_form(lower, p);
    let r = intent_form(lower);
    let q = |c: char| no_umlaut(c);
    let pq = |c: char| p(c) && no_umlaut(c);
    assert forall|i: int| 0 <= i < r.len() implies q(#[trigger] r[i]) by {
        assert(pq(r[i]));
    }
    lemma_nothing_to_spell_out(r);
}

/// Comparing a message by its form is comparing the forms: the form of any message holds no umlaut,
/// and white space only as single blanks between words; and the form of the form is the form, as far
/// as it is in small letters already, which it is wherever the message is ASCII. It then holds no
/// capital either.
pub proof fn forms_are_compared(text: Seq<char>)
    ensures
        only(intent_of(text), |c: char| no_umlaut(c)),
        single_blanks(intent_of(text)),
        lowered(intent_of(text)) == intent_of(text) ==> intent_of(intent_of(text)) == intent_of(
            text,
        ),
        all_ascii(trimmed(text)) ==> {
            &&& intent_of(intent_of(text)) == intent_of(text)
            &&& all_ascii(intent_of(text))
            &&& only(intent_of(text), |c: char| !('A' <= c <= 'Z'))
        },
{
    let lower = lowered(trimmed(text));
    let r = intent_of(text);
    the_form_is_its_own_form(lower);
    let any = |c: char| true;
    assert(only(lower, any));
    lemma_intent_form(lower, any);
    lemma_trimmed_bare(r, CharClass::Space);
    if all_ascii(trimmed(text)) {
        let t = trimmed(text);
        let p = |c: char| (c as u32) < 0x80 && !('A' <= c <= 'Z');
        assert forall|i: int| 0 <= i < lower.len() implies p(#[trigger] lower[i]) by {
            assert((t[i] as u32) < 0x80);
            assert(lower[i] == ascii_small(t[i]));
        }
        lemma_intent_form(lower, p);
        let pq = |c: char| p(c) && no_umlaut(c);
        assert forall|i: int| 0 <= i < r.len() implies (#[trigger] r[i] as u32) < 0x80 && !('A'
            <= r[i] <= 'Z') by {
            assert(pq(r[i]));
        }
        assert(ascii_lower(r) =~= r);
    }
}

/// Umlauts and the sharp s are spelled out wherever they stand, and every other character stays: the
/// spelling of a text is that of its characters, one behind the other.
pub proof fn umlauts_are_spelled_out(a: Seq<char>, c: char, b: Seq<char>)
    ensures
        spelled_out(a + b) == spelled_out(a) + spelled_out(b),
        spelled_out(seq![c]) == if c == '\u{e4}' {
            "ae"@
        } else if c == '\u{f6}' {
            "oe"@
        } else if c == '\u{fc}' {
            "ue"@
        } else if c == '\u{df}' {
            "ss"@
        } else {
            seq![c]
        },
{
    reveal_strlit("ae");
    reveal_strlit("oe");
    reveal_strlit("ue");
    reveal_strlit("ss");
    let a1 = char_replaced(a, '\u{e4}', "ae"@);
    let b1 = char_replaced(b, '\u{e4}', "ae"@);
    let a2 = char_replaced(a1, '\u{f6}', "oe"@);
    let b2 = char_replaced(b1, '\u{f6}', "oe"@);
    let a3 = char_replaced(a2, '\u{fc}', "ue"@);
    let b3 = char_replaced(b2, '\u{fc}', "ue"@);
    lemma_char_replaced_add(a, b, '\u{e4}', "ae"@);
    lemma_char_replaced_add(a1, b1, '\u{f6}', "oe"@);
    lemma_char_replaced_add(a2, b2, '\u{fc}', "ue"@);
    lemma_char_replaced_add(a3, b3, '\u{df}', "ss"@);
    let one = seq![c];
    lemma_one_replaced(c, '\u{e4}', "ae"@);
    let s1 = char_replaced(one, '\u{e4}', "ae"@);
    if c == '\u{e4}' {
        lemma_char_replaced_none(s1, '\u{f6}', "oe"@);
        lemma_char_replaced_none(s1, '\u{fc}', "ue"@);
        lemma_char_replaced_none(s1, '\u{df}', "ss"@);
    } else {
        lemma_one_replaced(c, '\u{f6}', "oe"@);
        let s2 = char_replaced(one, '\u{f6}', "oe"@);
        if c == '\u{f6}' {
            lemma_char_replaced_none(s2, '\u{fc}', "ue"@);
            lemma_char_replaced_none(s2, '\u{df}', "ss"@);
        } else {
            lemma_one_replaced(c, '\u{fc}', "ue"@);
            let s3 = char_replaced(one, '\u{fc}', "ue"@);
            if c == '\u{fc}' {
                lemma_char_replaced_none(s3, '\u{df}', "ss"@);
            } else {
                lemma_one_replaced(c, '\u{df}', "ss"@);
            }
        }
    }
}

/// Replacing in a text of one character.
proof fn lemma_one_replaced(c: char, x: char, with: Seq<char>)
    ensures
        char_replaced(seq![c], x, with) == if c == x {
            with
        } else {
            seq![c]
        },
{
    let one = seq![c];
    let none = one.drop_last();
    assert(none =~= Seq::<char>::empty());
    assert(char_replaced(none, x, with) =~= Seq::<char>::empty());
    assert(one.last() == c);
    assert(char_replaced(one, x, with) =~= if c == x {
        with
    } else {
        one
    });
}

/// How words are spaced makes no difference where messages are compared, and words without umlauts
/// are compared as they are, with one blank between them.
pub proof fn spacing_makes_no_difference(list: Seq<Seq<char>>, a: Seq<char>)
    requires
        forall|k: int|
            0 <= k < list.len() ==> is_word(#[trigger] list[k]) && only(
                list[k],
                |c: char| no_umlaut(c),
            ),
        words(a) == list,
        only(a, |c: char| no_umlaut(c)),
    ensures
        intent_form(a) == joined(list, " "@),
        words(intent_form(a)) == list,
{
    lemma_nothing_to_spell_out(a);
    lemma_joined_words(list, |c: char| no_umlaut(c));
}

/// Greetings and thanks are answered at once, and nothing else is.
pub proof fn only_small_talk_is_answered(intent: Seq<char>)
    ensures
        intent == "hallo"@ || intent == "hi"@ || intent == "hey"@ || intent == "servus"@ || intent
            == "moin"@ || intent == "guten tag"@ || intent == "guten morgen"@ || intent
            == "guten abend"@ ==> small_talk_answer(intent) == Some(
            "Hello. I am ready. Tell me what to do in the selected project."@,
        ),
        small_talk_answer(intent) is Some <==> {
            ||| intent == "hallo"@
            ||| intent == "hi"@
            ||| intent == "hey"@
            ||| intent == "servus"@
            ||| intent == "moin"@
            ||| intent == "guten tag"@
            ||| intent == "guten morgen"@
            ||| intent == "guten abend"@
            ||| intent == "danke"@
            ||| intent == "dankeschon"@
            ||| intent == "danke dir"@
        },
{
}

/// The form of a text in small letters in which messages are compared.
pub fn intent_of_lowered(lower: &str) -> (r: String)
    ensures
        r@ == intent_form(lower@),
{
    let a = replace_char(lower, '\u{e4}', "ae");
    let b = replace_char(a.as_str(), '\u{f6}', "oe");
    let c = replace_char(b.as_str(), '\u{fc}', "ue");
    let d = replace_char(c.as_str(), '\u{df}', "ss");
    join(&split_words(d.as_str()), " ")
}

/// The form in which a message is compared with what the library understands.
pub fn normalize_for_intent(text: &str) -> (r: String)
    ensures
        r@ == intent_of(text@),
{
    let lower = to_lowercase(trim(text));
    intent_of_lowered(lower.as_str())
}

/// The answer to small talk, given in the form that messages are compared in.
pub fn answer_small_talk(intent: &str) -> (r: Option<String>)
    ensures
        opt_text(r) == small_talk_answer(intent@),
{
    if text_is(intent, "hallo") || text_is(intent, "hi") || text_is(intent, "hey") || text_is(
        intent,
        "servus",
    ) || text_is(intent, "moin") || text_is(intent, "guten tag") || text_is(intent, "guten morgen")
        || text_is(intent, "guten abend") {
        return Some("Hello. I am ready. Tell me what to do in the selected project.".to_owned());
    }
    if text_is(intent, "danke") || text_is(intent, "dankeschon") || text_is(intent, "danke dir") {
        return Some("You're welcome.".to_owned());
    }
    None
}

/// The answer to a message that is small talk and needs no agent.
pub fn direct_chat_answer(user_request: &str) -> (r: Option<String>)
    ensures
        opt_text(r) == small_talk_answer(intent_of(user_request@)),
{
    let intent = normalize_for_intent(user_request);
    answer_small_talk(intent.as_str())
}

} // verus!
