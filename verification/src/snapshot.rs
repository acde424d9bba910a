//! What the models get to see of a project and of what is remembered.

use vstd::prelude::*;
use crate::answer::{shortened, truncate_text};
use crate::paths::{extension, extension_of, extensions_stand_behind_the_last_dot};
use crate::prompts::{lemma_holds_middle, lemma_holds_part};
use crate::text::{
    ascii_lower, begins, blank, byte_len, cat5, char_at_byte, char_index, char_replaced, ends,
    holds, is_blank, lemma_ascii_bytes, lemma_byte_len_add, lemma_byte_len_encoding, lemma_char_at_byte,
    lemma_char_swapped, replace_char, str_texts, take_chars, text_is, to_ascii_lower,
};

verus! {

/// Folders that are not looked into.
pub open spec fn ignored_names() -> Seq<Seq<char>> {
    seq![
        ".git"@,
        "target"@,
        "DISTRIBUTION"@,
        "runtime"@,
        "PROGRAMME"@,
        ".ollama"@,
        "node_modules"@,
        ".venv"@,
        "venv"@,
        "dist"@,
        "build"@,
        ".next"@,
        ".cache"@,
    ]
}

/// Files without an extension that are text.
pub open spec fn plain_names() -> Seq<Seq<char>> {
    seq!["Dockerfile"@, "Makefile"@, "README"@, "LICENSE"@]
}

/// Extensions of text files.
pub open spec fn text_extensions() -> Seq<Seq<char>> {
    seq![
        "rs"@,
        "toml"@,
        "lock"@,
        "md"@,
        "txt"@,
        "json"@,
        "jsonl"@,
        "yaml"@,
        "yml"@,
        "js"@,
        "jsx"@,
        "ts"@,
        "tsx"@,
        "mjs"@,
        "cjs"@,
        "css"@,
        "scss"@,
        "html"@,
        "htm"@,
        "py"@,
        "go"@,
        "java"@,
        "kt"@,
        "cs"@,
        "cpp"@,
        "c"@,
        "h"@,
        "hpp"@,
        "sh"@,
        "ps1"@,
        "bat"@,
        "cmd"@,
        "sql"@,
        "xml"@,
        "vue"@,
        "svelte"@,
        "php"@,
        "rb"@,
    ]
}

/// A file whose text is shown to the models.
pub open spec fn text_file(name: Seq<char>) -> bool {
    match extension(name) {
        Some(e) => text_extensions().contains(ascii_lower(e)),
        None => plain_names().contains(name),
    }
}

/// The endings by which text files are known, in small letters.
pub open spec fn shown_ending(ending: Seq<char>) -> bool {
    ||| ending == "rs"@
    ||| ending == "toml"@
    ||| ending == "lock"@
    ||| ending == "md"@
    ||| ending == "txt"@
    ||| ending == "json"@
    ||| ending == "jsonl"@
    ||| ending == "yaml"@
    ||| ending == "yml"@
    ||| ending == "js"@
    ||| ending == "jsx"@
    ||| ending == "ts"@
    ||| ending == "tsx"@
    ||| ending == "mjs"@
    ||| ending == "cjs"@
    ||| ending == "css"@
    ||| ending == "scss"@
    ||| ending == "html"@
    ||| ending == "htm"@
    ||| ending == "py"@
    ||| ending == "go"@
    ||| ending == "java"@
    ||| ending == "kt"@
    ||| ending == "cs"@
    ||| ending == "cpp"@
    ||| ending == "c"@
    ||| ending == "h"@
    ||| ending == "hpp"@
    ||| ending == "sh"@
    ||| ending == "ps1"@
    ||| ending == "bat"@
    ||| ending == "cmd"@
    ||| ending == "sql"@
    ||| ending == "xml"@
    ||| ending == "vue"@
    ||| ending == "svelte"@
    ||| ending == "php"@
    ||| ending == "rb"@
}

/// A file with an ending is shown exactly where its ending, in small or large letters, is that of a
/// text file.
pub proof fn text_files_are_known_by_their_ending(stem: Seq<char>, ending: Seq<char>)
    requires
        stem.len() > 0,
        !ending.contains('.'),
    ensures
        text_file(stem + "."@ + ending) == shown_ending(ascii_lower(ending)),
{
    extensions_stand_behind_the_last_dot(stem, ending);
    lemma_listed(ascii_lower(ending));
}

/// A file without an ending is shown exactly where its name is one of those that text files bear
/// without one.
pub proof fn text_files_without_an_ending_are_known_by_name(name: Seq<char>)
    requires
        !name.contains('.'),
    ensures
        text_file(name) <==> {
            ||| name == "Dockerfile"@
            ||| name == "Makefile"@
            ||| name == "README"@
            ||| name == "LICENSE"@
        },
{
    extensions_stand_behind_the_last_dot(name, name);
    let l = plain_names();
    assert(l[0] == "Dockerfile"@);
    assert(l[1] == "Makefile"@);
    assert(l[2] == "README"@);
    assert(l[3] == "LICENSE"@);
    assert(l.len() == 4);
}

/// What is listed is what is known.
proof fn lemma_listed(e: Seq<char>)
    ensures
        text_extensions().contains(e) == shown_ending(e),
{
    let l = text_extensions();
    assert(l[0] == "rs"@);
    assert(l[1] == "toml"@);
    assert(l[2] == "lock"@);
    assert(l[3] == "md"@);
    assert(l[4] == "txt"@);
    assert(l[5] == "json"@);
    assert(l[6] == "jsonl"@);
    assert(l[7] == "yaml"@);
    assert(l[8] == "yml"@);
    assert(l[9] == "js"@);
    assert(l[10] == "jsx"@);
    assert(l[11] == "ts"@);
    assert(l[12] == "tsx"@);
    assert(l[13] == "mjs"@);
    assert(l[14] == "cjs"@);
    assert(l[15] == "css"@);
    assert(l[16] == "scss"@);
    assert(l[17] == "html"@);
    assert(l[18] == "htm"@);
    assert(l[19] == "py"@);
    assert(l[20] == "go"@);
    assert(l[21] == "java"@);
    assert(l[22] == "kt"@);
    assert(l[23] == "cs"@);
    assert(l[24] == "cpp"@);
    assert(l[25] == "c"@);
    assert(l[26] == "h"@);
    assert(l[27] == "hpp"@);
    assert(l[28] == "sh"@);
    assert(l[29] == "ps1"@);
    assert(l[30] == "bat"@);
    assert(l[31] == "cmd"@);
    assert(l[32] == "sql"@);
    assert(l[33] == "xml"@);
    assert(l[34] == "vue"@);
    assert(l[35] == "svelte"@);
    assert(l[36] == "php"@);
    assert(l[37] == "rb"@);
    assert(l.len() == 38);
}

/// What is looked into: everything but the folders of tools, of what they make, and of this program
/// itself.
pub proof fn only_these_are_passed_over(name: Seq<char>)
    ensures
        ignored_names().contains(name) <==> {
            ||| name == ".git"@
            ||| name == "target"@
            ||| name == "DISTRIBUTION"@
            ||| name == "runtime"@
            ||| name == "PROGRAMME"@
            ||| name == ".ollama"@
            ||| name == "node_modules"@
            ||| name == ".venv"@
            ||| name == "venv"@
            ||| name == "dist"@
            ||| name == "build"@
            ||| name == ".next"@
            ||| name == ".cache"@
        },
{
    let l = ignored_names();
    assert(l[0] == ".git"@);
    assert(l[1] == "target"@);
    assert(l[2] == "DISTRIBUTION"@);
    assert(l[3] == "runtime"@);
    assert(l[4] == "PROGRAMME"@);
    assert(l[5] == ".ollama"@);
    assert(l[6] == "node_modules"@);
    assert(l[7] == ".venv"@);
    assert(l[8] == "venv"@);
    assert(l[9] == "dist"@);
    assert(l[10] == "build"@);
    assert(l[11] == ".next"@);
    assert(l[12] == ".cache"@);
    assert(l.len() == 13);
}

/// Whether a text is one of the given ones.
fn is_one_of(text: &str, list: &Vec<&'static str>) -> (r: bool)
    ensures
        r == str_texts(list@).contains(text@),
{
    let n: usize = list.len();
    let ghost all = str_texts(list@);
    let mut i: usize = 0;
    while i < n
        invariant
            i <= n == list@.len(),
            all == str_texts(list@),
            forall|k: int| 0 <= k < i ==> #[trigger] all[k] != text@,
        decreases n - i,
    {
        assert(all[i as int] == list@[i as int]@);
        if text_is(text, list[i]) {
            return true;
        }
        i += 1;
    }
    false
}

/// Whether a file or folder of this name is not looked into.
pub fn is_ignored_snapshot_entry(name: &str) -> (r: bool)
    ensures
        r == ignored_names().contains(name@),
{
    let list: Vec<&'static str> = vec![
        ".git",
        "target",
        "DISTRIBUTION",
        "runtime",
        "PROGRAMME",
        ".ollama",
        "node_modules",
        ".venv",
        "venv",
        "dist",
        "build",
        ".next",
        ".cache",
    ];
    assert(str_texts(list@) =~= ignored_names());
    is_one_of(name, &list)
}

/// Whether the text of a file of this name is shown to the models.
pub fn is_text_snapshot_file(name: &str) -> (r: bool)
    ensures
        r == text_file(name@),
{
    match extension_of(name) {
        Some(e) => {
            let list: Vec<&'static str> = vec![
                "rs",
                "toml",
                "lock",
                "md",
                "txt",
                "json",
                "jsonl",
                "yaml",
                "yml",
                "js",
                "jsx",
                "ts",
                "tsx",
                "mjs",
                "cjs",
                "css",
                "scss",
                "html",
                "htm",
                "py",
                "go",
                "java",
                "kt",
                "cs",
                "cpp",
                "c",
                "h",
                "hpp",
                "sh",
                "ps1",
                "bat",
                "cmd",
                "sql",
                "xml",
                "vue",
                "svelte",
                "php",
                "rb",
            ];
            assert(str_texts(list@) =~= text_extensions());
            let lower = to_ascii_lower(e);
            is_one_of(lower.as_str(), &list)
        },
        None => {
            let list: Vec<&'static str> = vec!["Dockerfile", "Makefile", "README", "LICENSE"];
            assert(str_texts(list@) =~= plain_names());
            is_one_of(name, &list)
        },
    }
}

/// Whether a file is too large to be shown: more than 80,000 bytes.
pub fn is_too_large_to_show(bytes: u64) -> (r: bool)
    ensures
        r == (bytes > 80_000),
{
    bytes > 80_000
}

/// The snapshot with one more file.
pub open spec fn with_file(out: Seq<char>, path: Seq<char>, text: Seq<char>) -> Seq<char> {
    out + ("\n--- File: "@ + char_replaced(path, '\\', "/"@) + " ---\n"@ + text + "\n"@)
}

/// What becomes of a snapshot when a file is added.
#[derive(Debug)]
pub enum SnapshotStep<T> {
    /// There is room for more.
    Open(T),
    /// The limit is reached, and the snapshot was cut there.
    Full(T),
    /// The limit falls into the middle of a character.
    Uncuttable,
}

impl View for SnapshotStep<String> {
    type V = SnapshotStep<Seq<char>>;

    open spec fn view(&self) -> SnapshotStep<Seq<char>> {
        match self {
            SnapshotStep::Open(s) => SnapshotStep::Open(s@),
            SnapshotStep::Full(s) => SnapshotStep::Full(s@),
            SnapshotStep::Uncuttable => SnapshotStep::Uncuttable,
        }
    }
}

/// What becomes of a snapshot when a file is added, where `limit` counts bytes.
pub open spec fn snapshot_step(out: Seq<char>, path: Seq<char>, text: Seq<char>, limit: usize) ->
    SnapshotStep<Seq<char>> {
    let all = with_file(out, path, text);
    if byte_len(all) < limit {
        SnapshotStep::Open(all)
    } else {
        match char_at_byte(all, limit as int) {
            Some(n) => SnapshotStep::Full(all.take(n) + "\n[Snapshot shortened]\n"@),
            None => SnapshotStep::Uncuttable,
        }
    }
}

/// Adds a file to a snapshot.
pub fn append_snapshot_file(out: String, path: &str, text: &str, limit: usize) -> (r: SnapshotStep<
    String,
>)
    ensures
        r@ == snapshot_step(out@, path@, text@, limit),
{
    let mut all = out;
    let part = cat5(
        "\n--- File: ",
        replace_char(path, '\\', "/").as_str(),
        " ---\n",
        text,
        "\n",
    );
    all.append(part.as_str());
    proof {
        lemma_byte_len_encoding(all@);
    }
    if all.as_str().as_bytes().len() < limit {
        return SnapshotStep::Open(all);
    }
    match char_index(all.as_str(), limit as u128) {
        Some(n) => {
            let mut cut: String = take_chars(all.as_str(), n).to_owned();
            cut.append("\n[Snapshot shortened]\n");
            SnapshotStep::Full(cut)
        },
        None => SnapshotStep::Uncuttable,
    }
}

/// The finished snapshot: a note where nothing could be read.
pub open spec fn finished(out: Seq<char>) -> Seq<char> {
    if blank(out) {
        out + "[No readable project snapshot found]"@
    } else {
        out
    }
}

/// What was read is shown as it is, and where nothing was, that is said.
pub proof fn empty_snapshots_say_so(out: Seq<char>)
    ensures
        begins(finished(out), out),
        !blank(out) ==> finished(out) == out,
        blank(out) ==> ends(finished(out), "[No readable project snapshot found]"@),
{
    let r = finished(out);
    let note = "[No readable project snapshot found]"@;
    assert(r.subrange(0, out.len() as int) =~= out);
    if blank(out) {
        assert(r.subrange(r.len() - note.len(), r.len() as int) =~= note);
    }
}

/// The finished snapshot: a note where nothing could be read.
pub fn finish_snapshot(out: String) -> (r: String)
    ensures
        r@ == finished(out@),
        r@ == if blank(out@) {
            out@ + "[No readable project snapshot found]"@
        } else {
            out@
        },
{
    let mut all = out;
    if is_blank(all.as_str()) {
        all.append("[No readable project snapshot found]");
    }
    all
}

/// As long as there is room, every file is shown whole, with its path, behind what was shown before;
/// there is room where all of it, with the words around it, takes fewer bytes than the limit.
#[verifier::rlimit(40)]
pub proof fn files_are_shown_whole(out: Seq<char>, path: Seq<char>, text: Seq<char>, limit: usize)
    ensures
        byte_len(out) + byte_len(path) + byte_len(text) + 17 < limit ==> snapshot_step(
            out,
            path,
            text,
            limit,
        ) is Open,
        snapshot_step(out, path, text, limit) matches SnapshotStep::Open(s) ==> {
            &&& begins(s, out)
            &&& s.len() == out.len() + path.len() + text.len() + 17
            &&& holds(s, text)
            &&& !path.contains('\\') ==> holds(
                s,
                "\n--- File: "@ + path + " ---\n"@ + text + "\n"@,
            )
        },
{
    reveal_strlit("\n--- File: ");
    reveal_strlit(" ---\n");
    reveal_strlit("\n");
    reveal_strlit("/");
    let shown = char_replaced(path, '\\', "/"@);
    lemma_char_swapped(path, '\\', "/"@);
    lemma_same_bytes(path, shown);
    let head = "\n--- File: "@ + shown + " ---\n"@;
    let part = head + text + "\n"@;
    let s = out + part;
    lemma_byte_len_add(out, part);
    lemma_byte_len_add(head + text, "\n"@);
    lemma_byte_len_add(head, text);
    lemma_byte_len_add("\n--- File: "@ + shown, " ---\n"@);
    lemma_byte_len_add("\n--- File: "@, shown);
    lemma_plain_bytes("\n--- File: "@);
    lemma_plain_bytes(" ---\n"@);
    lemma_plain_bytes("\n"@);
    assert(s.subrange(0, out.len() as int) =~= out);
    assert(s =~= (out + head) + text + "\n"@);
    lemma_holds_middle(out + head, text, "\n"@);
    if !path.contains('\\') {
        assert forall|i: int| 0 <= i < path.len() implies #[trigger] path[i] != '\\' by {
            assert(path.contains(path[i]));
        }
        assert(shown =~= path);
        lemma_holds_middle(out, part, Seq::empty());
        assert(out + part + Seq::<char>::empty() =~= s);
    }
}

/// A text that differs in slashes and backslashes takes as many bytes.
proof fn lemma_same_bytes(a: Seq<char>, b: Seq<char>)
    requires
        a.len() == b.len(),
        forall|i: int|
            0 <= i < a.len() ==> b[i] == if #[trigger] a[i] == '\\' {
                '/'
            } else {
                a[i]
            },
    ensures
        byte_len(a) == byte_len(b),
    decreases a.len(),
{
    if a.len() > 0 {
        assert(a[0] == a[0]);
        lemma_same_bytes(a.skip(1), b.skip(1));
    }
}

/// An ASCII text takes a byte for every character.
proof fn lemma_plain_bytes(s: Seq<char>)
    requires
        forall|i: int| 0 <= i < s.len() ==> (#[trigger] s[i] as u32) < 0x80,
    ensures
        byte_len(s) == s.len(),
{
    lemma_ascii_bytes(s, 0);
}

/// A snapshot that was cut holds no more than the limit, and the note.
pub proof fn full_snapshots_keep_the_limit(
    out: Seq<char>,
    path: Seq<char>,
    text: Seq<char>,
    limit: usize,
)
    ensures
        snapshot_step(out, path, text, limit) matches SnapshotStep::Open(s) ==> byte_len(s) < limit,
        snapshot_step(out, path, text, limit) matches SnapshotStep::Full(s) ==> exists|n: int|
            0 <= n <= with_file(out, path, text).len() && s == #[trigger] with_file(
                out,
                path,
                text,
            ).take(n) + "\n[Snapshot shortened]\n"@ && byte_len(
                with_file(out, path, text).take(n),
            ) == limit,
{
    let all = with_file(out, path, text);
    lemma_char_at_byte(all, limit as int);
    if byte_len(all) >= limit {
        match char_at_byte(all, limit as int) {
            Some(n) => {
                assert(all.take(n) == all.take(n));
            },
            None => {},
        }
    }
}

/// A file of what is remembered: how its path is shown, and its text where it could be read.
#[derive(Debug)]
pub struct MemoryFile {
    pub shown: String,
    pub text: Option<String>,
}

/// What is remembered, from the file `i` on, behind what was read so far.
pub open spec fn remembered(files: Seq<MemoryFile>, i: int, out: Seq<char>, limit: usize) -> Seq<char>
    decreases files.len() - i,
{
    if i < 0 || i >= files.len() {
        shortened(out, limit as int)
    } else {
        let now = match files[i].text {
            Some(text) => out + ("\n--- Memory: "@ + files[i].shown@ + " ---\n"@ + text@ + "\n"@),
            None => out,
        };
        if now.len() >= limit {
            shortened(now, limit as int)
        } else {
            remembered(files, i + 1, now, limit)
        }
    }
}

/// All that the files from `i` on hold, each behind its heading.
pub open spec fn all_memories(files: Seq<MemoryFile>, i: int) -> Seq<char>
    decreases files.len() - i,
{
    if i < 0 || i >= files.len() {
        Seq::empty()
    } else {
        let rest = all_memories(files, i + 1);
        match files[i].text {
            Some(text) => ("\n--- Memory: "@ + files[i].shown@ + " ---\n"@ + text@ + "\n"@) + rest,
            None => rest,
        }
    }
}

/// Where all files together are no longer than the limit, nothing of them is left out.
pub proof fn short_memories_are_read_whole(files: Seq<MemoryFile>, limit: usize)
    requires
        all_memories(files, 0).len() <= limit,
    ensures
        remembered(files, 0, ""@, limit) == all_memories(files, 0),
{
    reveal_strlit("");
    assert(""@ + all_memories(files, 0) =~= all_memories(files, 0));
    lemma_remembered(files, 0, ""@, limit);
}

/// As long as there is room for all, what is remembered holds every file that could be read, whole and
/// with its path.
pub proof fn every_memory_is_read(files: Seq<MemoryFile>, limit: usize, i: int)
    requires
        all_memories(files, 0).len() <= limit,
        0 <= i < files.len(),
    ensures
        files[i].text matches Some(text) ==> holds(remembered(files, 0, ""@, limit), text@) && holds(
            remembered(files, 0, ""@, limit),
            files[i].shown@,
        ),
{
    short_memories_are_read_whole(files, limit);
    match files[i].text {
        Some(text) => {
            let shown = files[i].shown@;
            let part = "\n--- Memory: "@ + shown + " ---\n"@ + text@ + "\n"@;
            lemma_memory_held(files, 0, i);
            lemma_holds_middle("\n--- Memory: "@ + shown + " ---\n"@, text@, "\n"@);
            lemma_holds_middle("\n--- Memory: "@, shown, " ---\n"@ + text@ + "\n"@);
            assert("\n--- Memory: "@ + shown + (" ---\n"@ + text@ + "\n"@) =~= part);
            lemma_holds_part(all_memories(files, 0), part, text@);
            lemma_holds_part(all_memories(files, 0), part, shown);
        },
        None => {},
    }
}

/// All memories hold each of them.
proof fn lemma_memory_held(files: Seq<MemoryFile>, k: int, i: int)
    requires
        0 <= k <= i < files.len(),
        files[i].text is Some,
    ensures
        holds(
            all_memories(files, k),
            "\n--- Memory: "@ + files[i].shown@ + " ---\n"@ + files[i].text->0@ + "\n"@,
        ),
    decreases i - k,
{
    let all = all_memories(files, k);
    let rest = all_memories(files, k + 1);
    let none = Seq::<char>::empty();
    if k == i {
        let part = "\n--- Memory: "@ + files[i].shown@ + " ---\n"@ + files[i].text->0@ + "\n"@;
        lemma_holds_middle(none, part, rest);
        assert(none + part + rest =~= all);
    } else {
        lemma_memory_held(files, k + 1, i);
        let part = "\n--- Memory: "@ + files[i].shown@ + " ---\n"@ + files[i].text->0@ + "\n"@;
        match files[k].text {
            Some(text) => {
                let front = "\n--- Memory: "@ + files[k].shown@ + " ---\n"@ + text@ + "\n"@;
                lemma_holds_middle(front, rest, none);
                assert(front + rest + none =~= all);
                lemma_holds_part(all, rest, part);
            },
            None => {},
        }
    }
}

/// What is remembered where there is room for all of it.
proof fn lemma_remembered(files: Seq<MemoryFile>, i: int, out: Seq<char>, limit: usize)
    requires
        0 <= i <= files.len(),
        (out + all_memories(files, i)).len() <= limit,
    ensures
        remembered(files, i, out, limit) == out + all_memories(files, i),
    decreases files.len() - i,
{
    if i < files.len() {
        let rest = all_memories(files, i + 1);
        let now = match files[i].text {
            Some(text) => out + ("\n--- Memory: "@ + files[i].shown@ + " ---\n"@ + text@ + "\n"@),
            None => out,
        };
        assert(now + rest =~= out + all_memories(files, i));
        if now.len() >= limit {
            assert(now + rest =~= now);
        } else {
            lemma_remembered(files, i + 1, now, limit);
        }
    } else {
        assert(out + all_memories(files, i) =~= out);
    }
}

/// Where all files together are longer than the limit, what is remembered begins with as much of
/// them as the limit allows, and at most the note that it was cut follows.
pub proof fn long_memories_are_cut(files: Seq<MemoryFile>, limit: usize)
    requires
        all_memories(files, 0).len() > limit,
    ensures
        ({
            let r = remembered(files, 0, ""@, limit);
            &&& limit <= r.len() <= limit + 12
            &&& r.take(limit as int) == all_memories(files, 0).take(limit as int)
            &&& r.skip(limit as int) == ""@ || r.skip(limit as int) == "\n[shortened]"@
        }),
{
    reveal_strlit("");
    assert(""@ + all_memories(files, 0) =~= all_memories(files, 0));
    lemma_cut(files, 0, ""@, limit);
}

/// What is remembered where there is no room for all of it.
proof fn lemma_cut(files: Seq<MemoryFile>, i: int, out: Seq<char>, limit: usize)
    requires
        0 <= i <= files.len(),
        (out + all_memories(files, i)).len() > limit,
    ensures
        ({
            let r = remembered(files, i, out, limit);
            &&& limit <= r.len() <= limit + 12
            &&& r.take(limit as int) == (out + all_memories(files, i)).take(limit as int)
            &&& r.skip(limit as int) == ""@ || r.skip(limit as int) == "\n[shortened]"@
        }),
    decreases files.len() - i,
{
    let n = limit as int;
    let total = out + all_memories(files, i);
    let now = if i < files.len() {
        match files[i].text {
            Some(text) => out + ("\n--- Memory: "@ + files[i].shown@ + " ---\n"@ + text@ + "\n"@),
            None => out,
        }
    } else {
        out
    };
    if i < files.len() {
        assert(now + all_memories(files, i + 1) =~= total);
    } else {
        assert(now =~= total);
    }
    if now.len() >= limit {
        reveal_strlit("");
        reveal_strlit("\n[shortened]");
        let r = shortened(now, n);
        assert(r.take(n) =~= now.take(n));
        assert(now.take(n) =~= total.take(n));
        if now.len() == limit {
            assert(r.skip(n) =~= ""@);
        } else {
            assert(r.skip(n) =~= "\n[shortened]"@);
        }
    } else {
        lemma_cut(files, i + 1, now, limit);
    }
}

/// What is remembered, read from the given files in order until the limit is reached.
pub fn read_memory_context(files: &Vec<MemoryFile>, limit: usize) -> (r: String)
    ensures
        r@ == remembered(files@, 0, ""@, limit),
{
    let n: usize = files.len();
    let mut out: String = "".to_owned();
    let mut i: usize = 0;
    while i < n
        invariant
            i <= n == files@.len(),
            remembered(files@, 0, ""@, limit) == remembered(files@, i as int, out@, limit),
        decreases n - i,
    {
        if let Some(text) = &files[i].text {
            let part = cat5(
                "\n--- Memory: ",
                files[i].shown.as_str(),
                " ---\n",
                text.as_str(),
                "\n",
            );
            out.append(part.as_str());
        }
        if out.as_str().unicode_len() >= limit {
            return truncate_text(out.as_str(), limit);
        }
        i += 1;
    }
    truncate_text(out.as_str(), limit)
}

} // verus!
