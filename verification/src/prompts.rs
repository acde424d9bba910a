//! What the models are asked.

use vstd::prelude::*;
use crate::answer::{shortened, truncate_text};
use crate::text::{
    begins, cat5, cat7, ends, holds, join, joined, occurs_at, opt_str, texts,
};

verus! {

/// The rules for the coordinator, up to the project folder.
pub const COORDINATOR_HEAD: &'static str =
    "You are the coordinator of a local coding assistant.\n\n\
     You are the only agent that may talk to the user later.\n\
     You decide whether to answer directly or whether other agents should plan and change files.\n\n\
     Reply only with JSON, no Markdown.\n\n\
     Schema:\n\
     {\n  \
     \"reply_now\": false,\n  \
     \"needs_code\": true,\n  \
     \"summary\": \"what the user wants and how you route it\",\n  \
     \"direct_reply\": \"only use when no code work is needed\"\n\
     }\n\n\
     Rules:\n\
     - For small talk, explanation, or advice without file changes: reply_now=true, needs_code=false.\n\
     - Questions asking for PowerShell, CMD, Bash, terminal commands, code snippets, examples, or scripts are direct answers: reply_now=true, needs_code=false, unless the user explicitly asks to save or apply them to project files.\n\
     - For commands or code, direct_reply must contain executable code in fenced Markdown with the correct language tag, for example ```powershell, ```bash, ```python, or ```rust.\n\
     - Put each command on its own line. Do not replace code with a prose description.\n\
     - Briefly explain potentially destructive commands before showing them.\n\
     - For requested project changes, repair, build work, or UI changes: reply_now=false, needs_code=true.\n\
     - direct_reply must be natural and use the same language as the user.\n\
     - No internal agent names in direct_reply.\n\n\
     Project folder:\n";

/// Between the project folder and the request.
pub const COORDINATOR_REQUEST: &'static str =
    "\n\n\
     User request:\n";

/// Between the request and the snapshot.
pub const COORDINATOR_SNAPSHOT: &'static str =
    "\n\n\
     Project snapshot:\n";

/// Between the snapshot and the memory.
pub const COORDINATOR_MEMORY: &'static str =
    "\n\n\
     Persistent memory:\n";

/// Behind the memory: how the work is to be shared out.
pub const COORDINATOR_TAIL: &'static str =
    "\n\n\
     JSON:\n\n\
     IMPORTANT ROUTING OVERRIDE:\n\
     Return JSON with these fields:\n\
     {\n  \
     \"reply_now\": false,\n  \
     \"needs_code\": true,\n  \
     \"summary\": \"short routing summary\",\n  \
     \"direct_reply\": \"\",\n  \
     \"recommended_agent_count\": 1,\n  \
     \"use_large_single_coder\": true\n\
     }\n\n\
     Use recommended_agent_count=1 for clear/simple coding tasks, single-file work, or straightforward Python EXE packaging.\n\
     Use recommended_agent_count=2 for medium uncertainty.\n\
     Use recommended_agent_count=3..6 only for complex multi-file refactors, failing builds, repeated repair loops, or unclear architecture work.\n\
     Prefer speed. Use fewer agents unless more agents are genuinely needed.\n\
     All visible user-facing text must use the same language as the user.\n";

/// The rules for a coder, up to the project folder.
pub const CODER_HEAD: &'static str =
    "You are the coder agent in a local Codex-like system.\n\n\
     You do NOT talk to the user. The coordinator handles user communication.\n\
     You only create internal file actions as JSON.\n\n\
     Strict output rules:\n\
     - Work like a careful coding assistant: smallest useful change, respect existing patterns, do not invent files.\n\
     - Reply only with a single JSON object.\n\
     - No Markdown code fences.\n\
     - No explanations outside JSON.\n\
     - Allowed operations:\n  \
     1. {\"op\":\"replace_text\",\"path\":\"relative/path\",\"find\":\"exact old text\",\"replace\":\"new text\"}\n  \
     2. {\"op\":\"write_file\",\"path\":\"relative/path\",\"content\":\"complete file content\"}\n  \
     3. {\"op\":\"append_file\",\"path\":\"relative/path\",\"content\":\"text to append\"}\n  \
     4. {\"op\":\"package_python_exe\",\"path\":\"relative/path.py\"}\n  \
     5. {\"op\":\"copy_file\",\"source\":\"absolute/or/external/source/path\",\"path\":\"relative/target/path/inside/project\"}\n\
     - Paths must be relative to the project folder.\n\
     - No absolute paths.\n\
     - No paths with '..'.\n\
     - copy_file may use an absolute source path outside the project, but its target path must stay inside the project.\n\
     - Use write_file for new files, or only when the full target content is safely clear.\n\
     - Use replace_text only with text that occurs exactly once in the snapshot.\n\
     - For general coding tasks, write the required source files with write_file, append_file, or replace_text.\n\
     - If the user asks for a Windows EXE/app from Python, write or copy the suitable Python file first, then apply package_python_exe to that file.\n\
     - If no file change is needed, use \"actions\":[].\n\
     - If unsure, prefer \"actions\":[] and a clear summary.\n\n\
     JSON schema:\n\
     {\n  \
     \"summary\": \"short internal summary\",\n  \
     \"actions\": []\n\
     }\n\n\
     Project folder:\n";

/// Between the project folder and the request.
pub const CODER_REQUEST: &'static str =
    "\n\n\
     User request:\n";

/// Between the request and the goal.
pub const CODER_GOAL: &'static str =
    "\n\n\
     Coordinator goal:\n";

/// Between the goal and the snapshot.
pub const CODER_SNAPSHOT: &'static str =
    "\n\n\
     Project snapshot:\n";

/// Behind the snapshot: programs and imported files.
pub const CODER_TAIL: &'static str =
    "\n\n\
     JSON:\n\n\
     Universal Python EXE rule:\n\
     - If the user wants an EXE/app from Python, inspect the snapshot.\n\
     - If the matching .py file already exists, use package_python_exe on that file.\n\
     - If the Python file is attached or outside the project, first use copy_file to bring it into the project, then package_python_exe the copied file.\n\
     - If it does not exist or is empty/unusable, first write a runnable .py file with write_file, then use package_python_exe.\n\
     - Packaging automatically uses a temporary workspace, syntax check, short test run, diagnostics, and then copies the EXE back to dist.\n\
     - This must work for any Python file, not only Hello World.\n\n\
     External file import rule:\n\
     - If the user wants to copy/import a file from outside the project, or mentions an \"Attached file:\" path, use this action:\n  \
     {\"op\":\"copy_file\",\"source\":\"absolute/or/external/source/path\",\"path\":\"relative/target/path/inside/project\"}\n\
     - source may be absolute and outside the project.\n\
     - path must be relative and inside the project.\n\
     - If no target name is specified, use the source file name at the project root or in a sensible relative folder.\n\n\
     Reply now only with the JSON object:";

/// What a coder is told that changed nothing where a change was asked for.
pub const RETRY_TAIL: &'static str =
    "\n\n\
     CRITICAL RETRY RULE:\n\
     The user explicitly requested a project change. The previous coder returned no actions. You MUST inspect the snapshot and return at least one safe write_file or replace_text action that implements the request. Do not claim it is already addressed unless the requested functionality is visibly present in the snapshot.";

/// The rules for the repair agent, up to the project folder.
pub const REPAIR_HEAD: &'static str =
    "You are an internal repair agent.\n\n\
     Convert the following messy coder output into safe file actions.\n\
     If you cannot infer an absolutely safe change, return actions:[].\n\n\
     Respond only with one JSON object and no Markdown.\n\n\
     Schema:\n\
     {\n  \
     \"summary\": \"short internal summary\",\n  \
     \"actions\": []\n\
     }\n\n\
     Allowed operations:\n\
     - {\"op\":\"replace_text\",\"path\":\"relative/path\",\"find\":\"exact old text\",\"replace\":\"new text\"}\n\
     - {\"op\":\"write_file\",\"path\":\"relative/path\",\"content\":\"complete file content\"}\n\
     - {\"op\":\"append_file\",\"path\":\"relative/path\",\"content\":\"text to append\"}\n\
     - {\"op\":\"package_python_exe\",\"path\":\"relative/path.py\"}\n\n\
     Rules:\n\
     - Only relative paths below this project folder: ";

/// Between the project folder and what the coder said.
pub const REPAIR_OUTPUT: &'static str =
    "\n\
     - No absolute paths.\n\
     - No paths with '..'.\n\
     - Correct known errors from the error context.\n\
     - When uncertain, use actions:[].\n\n\
     Messy coder output:\n";

/// Between what the coder said and the errors.
pub const REPAIR_ERRORS: &'static str =
    "\n\n\
     Error context:\n";

/// Behind the errors.
pub const REPAIR_TAIL: &'static str =
    "\n\n\
     JSON:\n\n\
     Additional supported action:\n\
     - {\"op\":\"copy_file\",\"source\":\"absolute/or/external/source/path\",\"path\":\"relative/target/path/inside/project\"}\n\
     Use copy_file when the user's intent is to import/copy an external or attached file into the project. source may be outside the project, path must stay inside the project.\n";

/// The rules for the last attempt, up to the request.
pub const EMERGENCY_HEAD: &'static str =
    "Implement the requested project change now.\n\
     Return only one JSON object with this exact shape:\n\
     {\"summary\":\"short summary\",\"actions\":[{\"op\":\"write_file\",\"path\":\"relative/file\",\"content\":\"complete updated file\"}]}\n\n\
     Rules:\n\
     - At least one action is required.\n\
     - Prefer write_file with the complete updated content when the project is small.\n\
     - Paths must be relative to the project folder.\n\
     - No Markdown and no prose outside JSON.\n\n\
     User request:\n";

/// Between the request and the goal.
pub const EMERGENCY_GOAL: &'static str =
    "\n\n\
     Goal:\n";

/// Between the goal and the snapshot.
pub const EMERGENCY_SNAPSHOT: &'static str =
    "\n\n\
     Project snapshot:\n";

/// Behind the snapshot.
pub const EMERGENCY_TAIL: &'static str =
    "\n\n\
     JSON:";

/// The rules for the final answer, up to the request.
pub const FINAL_HEAD: &'static str =
    "You are the coordinator agent. You are the only agent that talks to the user.\n\n\
     Speak naturally like a helpful coding assistant.\n\
     No JSON blocks, no internal actions, no raw API data.\n\
     Use the same language as the user.\n\
     When the user asks for commands or code, include the executable result in fenced Markdown with the correct language tag.\n\
     Never describe a command without also printing the command itself.\n\
     Do not mention coder-agent errors. If no safe change was applied, simply say what you understood and what the next step is.\n\
     No lectures about permissions and no invented risks. Say only what actually happened.\n\n\
     User request:\n";

/// Between the request and the goal.
pub const FINAL_GOAL: &'static str =
    "\n\n\
     Coordinator goal:\n";

/// Between the goal and the coder's summary.
pub const FINAL_SUMMARY: &'static str =
    "\n\n\
     Internal coder summary:\n";

/// Between the summary and the changed files.
pub const FINAL_CHANGED: &'static str =
    "\n\n\
     Changed files:\n";

/// Between the changed files and whether they were applied.
pub const FINAL_AUTO: &'static str =
    "\n\n\
     Auto-apply:\n";

/// Between that and whether there were errors.
pub const FINAL_ERRORS: &'static str =
    "\n\n\
     Action errors:\n";

/// Between that and the test output.
pub const FINAL_TESTS: &'static str =
    "\n\n\
     Shortened test output:\n";

/// Between the test output and the answer made without a model.
pub const FINAL_FALLBACK: &'static str =
    "\n\n\
     Fallback answer, if you only need to polish it:\n";

/// Behind that answer.
pub const FINAL_TAIL: &'static str =
    "\n\n\
     Final answer:";

/// The smaller of two limits.
pub open spec fn at_most(limit: usize, most: int) -> int {
    if limit <= most {
        limit as int
    } else {
        most
    }
}

/// What the coordinator is asked: how to treat the request.
pub open spec fn coordinator_question(
    project_dir: Seq<char>,
    request: Seq<char>,
    snapshot: Seq<char>,
    memory: Seq<char>,
    limit: usize,
) -> Seq<char> {
    COORDINATOR_HEAD@ + project_dir + COORDINATOR_REQUEST@ + request + COORDINATOR_SNAPSHOT@
        + shortened(snapshot, at_most(limit, 80000)) + COORDINATOR_MEMORY@ + shortened(memory, 12000)
        + COORDINATOR_TAIL@
}

/// The question for the coordinator holds the project folder, the request, the project and what
/// is remembered, the latter two up to the length that they are cut at.
pub proof fn the_question_holds_what_was_given(
    project_dir: Seq<char>,
    request: Seq<char>,
    snapshot: Seq<char>,
    memory: Seq<char>,
    limit: usize,
)
    ensures
        ({
            let question = coordinator_question(project_dir, request, snapshot, memory, limit);
            &&& holds(question, project_dir)
            &&& holds(question, request)
            &&& holds(question, shortened(snapshot, at_most(limit, 80000)))
            &&& holds(question, shortened(memory, 12000))
        }),
{
    let shown = shortened(snapshot, at_most(limit, 80000));
    let known = shortened(memory, 12000);
    let before_request = COORDINATOR_HEAD@ + project_dir + COORDINATOR_REQUEST@;
    let before_project = before_request + request + COORDINATOR_SNAPSHOT@;
    let before_memory = before_project + shown + COORDINATOR_MEMORY@;
    let question = coordinator_question(project_dir, request, snapshot, memory, limit);
    let behind_memory = COORDINATOR_TAIL@;
    let behind_project = COORDINATOR_MEMORY@ + known + behind_memory;
    let behind_request = COORDINATOR_SNAPSHOT@ + shown + behind_project;
    let behind_head = COORDINATOR_REQUEST@ + request + behind_request;
    assert(question =~= COORDINATOR_HEAD@ + project_dir + behind_head);
    lemma_holds_middle(COORDINATOR_HEAD@, project_dir, behind_head);
    assert(question =~= before_request + request + behind_request);
    lemma_holds_middle(before_request, request, behind_request);
    assert(question =~= before_project + shown + behind_project);
    lemma_holds_middle(before_project, shown, behind_project);
    assert(question =~= before_memory + known + behind_memory);
    lemma_holds_middle(before_memory, known, behind_memory);
}

/// The coordinator gets to see, each under its heading, the request of the user word for word, the
/// project and what is remembered of it, both of them whole as far as there is room.
#[verifier::rlimit(40)]
pub proof fn the_coordinator_is_told_everything(
    project_dir: Seq<char>,
    request: Seq<char>,
    snapshot: Seq<char>,
    memory: Seq<char>,
    limit: usize,
)
    ensures
        ({
            let question = coordinator_question(project_dir, request, snapshot, memory, limit);
            &&& begins(question, COORDINATOR_HEAD@ + project_dir)
            &&& holds(question, "\n\nUser request:\n"@ + request + "\n\nProject snapshot:\n"@)
            &&& snapshot.len() <= limit && snapshot.len() <= 80000 ==> holds(
                question,
                "\n\nProject snapshot:\n"@ + snapshot + "\n\nPersistent memory:\n"@,
            )
            &&& snapshot.len() > limit && limit <= 80000 ==> holds(
                question,
                "\n\nProject snapshot:\n"@ + snapshot.take(limit as int),
            )
            &&& memory.len() <= 12000 ==> holds(question, "\n\nPersistent memory:\n"@ + memory)
            &&& memory.len() > 12000 ==> holds(
                question,
                "\n\nPersistent memory:\n"@ + memory.take(12000),
            )
        }),
{
    let question = coordinator_question(project_dir, request, snapshot, memory, limit);
    let shown = shortened(snapshot, at_most(limit, 80000));
    let known = shortened(memory, 12000);
    let a = COORDINATOR_HEAD@ + project_dir;
    let b = COORDINATOR_REQUEST@ + request + COORDINATOR_SNAPSHOT@;
    let c = a + COORDINATOR_REQUEST@ + request;
    let d = COORDINATOR_SNAPSHOT@ + shown + COORDINATOR_MEMORY@;
    let e = c + COORDINATOR_SNAPSHOT@ + shown;
    let f = COORDINATOR_MEMORY@ + known;
    assert(question =~= a + b + (shown + f + COORDINATOR_TAIL@));
    lemma_holds_middle(a, b, shown + f + COORDINATOR_TAIL@);
    assert(question =~= c + d + (known + COORDINATOR_TAIL@));
    lemma_holds_middle(c, d, known + COORDINATOR_TAIL@);
    assert(question =~= e + f + COORDINATOR_TAIL@);
    lemma_holds_middle(e, f, COORDINATOR_TAIL@);
    assert(question.subrange(0, a.len() as int) =~= a);
    let none = Seq::<char>::empty();
    if snapshot.len() > limit && limit <= 80000 {
        let cut = COORDINATOR_SNAPSHOT@ + snapshot.take(limit as int);
        assert(d =~= none + cut + (shown.skip(limit as int) + COORDINATOR_MEMORY@));
        lemma_holds_middle(none, cut, shown.skip(limit as int) + COORDINATOR_MEMORY@);
        lemma_holds_part(question, d, cut);
    }
    if memory.len() > 12000 {
        let cut = COORDINATOR_MEMORY@ + memory.take(12000);
        assert(f =~= none + cut + known.skip(12000));
        lemma_holds_middle(none, cut, known.skip(12000));
        lemma_holds_part(question, f, cut);
    }
}

/// What a text holds that is held by another, the other holds as well.
pub proof fn lemma_holds_part(all: Seq<char>, part: Seq<char>, inner: Seq<char>)
    requires
        holds(all, part),
        holds(part, inner),
    ensures
        holds(all, inner),
{
    let i = choose|i: int| occurs_at(all, part, i);
    let j = choose|j: int| occurs_at(part, inner, j);
    assert forall|k: int| 0 <= k < inner.len() implies all[i + j + k] == inner[k] by {
        assert(part.subrange(j, j + inner.len())[k] == inner[k]);
        assert(all.subrange(i, i + part.len())[j + k] == part[j + k]);
    }
    assert(all.subrange(i + j, i + j + inner.len()) =~= inner);
    assert(occurs_at(all, inner, i + j));
}

/// A text holds what stands in its middle.
pub proof fn lemma_holds_middle(before: Seq<char>, middle: Seq<char>, behind: Seq<char>)
    ensures
        holds(before + middle + behind, middle),
{
    let all = before + middle + behind;
    let at = before.len() as int;
    assert(all.subrange(at, at + middle.len()) =~= middle);
    assert(occurs_at(all, middle, at));
}

/// What the coordinator is asked: how to treat the request.
pub fn coordinator_prompt(
    project_dir: &str,
    request: &str,
    snapshot: &str,
    memory: &str,
    limit: usize,
) -> (r: String)
    ensures
        r@ == coordinator_question(project_dir@, request@, snapshot@, memory@, limit),
{
    let bound: usize = if limit <= 80000 {
        limit
    } else {
        80000
    };
    let mut out = cat5(
        COORDINATOR_HEAD,
        project_dir,
        COORDINATOR_REQUEST,
        request,
        COORDINATOR_SNAPSHOT,
    );
    out.append(truncate_text(snapshot, bound).as_str());
    out.append(COORDINATOR_MEMORY);
    out.append(truncate_text(memory, 12000).as_str());
    out.append(COORDINATOR_TAIL);
    out
}

/// What the coders are asked, apart from their roles.
pub open spec fn coder_question(
    project_dir: Seq<char>,
    request: Seq<char>,
    goal: Seq<char>,
    snapshot: Seq<char>,
) -> Seq<char> {
    CODER_HEAD@ + project_dir + CODER_REQUEST@ + request + CODER_GOAL@ + goal + CODER_SNAPSHOT@
        + snapshot + CODER_TAIL@
}

/// Whatever is asked of the coders, they get to see the project folder, the request of the user word
/// for word, the goal of the coordinator and the whole project, each under its own heading, between
/// the rules that their question begins and ends with.
#[verifier::rlimit(40)]
pub proof fn coders_are_told_everything(
    project_dir: Seq<char>,
    request: Seq<char>,
    goal: Seq<char>,
    snapshot: Seq<char>,
)
    ensures
        ({
            let question = coder_question(project_dir, request, goal, snapshot);
            &&& holds(question, project_dir)
            &&& holds(question, request)
            &&& holds(question, goal)
            &&& holds(question, snapshot)
            &&& holds(question, project_dir + "\n\nUser request:\n"@)
            &&& holds(question, "\n\nUser request:\n"@ + request + "\n\n"@)
            &&& holds(question, "\n\nCoordinator goal:\n"@ + goal + "\n\n"@)
            &&& holds(question, "\n\nProject snapshot:\n"@ + snapshot)
            &&& begins(question, CODER_HEAD@ + project_dir)
            &&& ends(question, snapshot + CODER_TAIL@)
        }),
{
    let question = coder_question(project_dir, request, goal, snapshot);
    let a = CODER_HEAD@;
    let b = a + project_dir;
    let c = b + CODER_REQUEST@ + request;
    let d = c + CODER_GOAL@ + goal;
    let e = CODER_SNAPSHOT@ + snapshot + CODER_TAIL@;
    let f = CODER_GOAL@ + goal + e;
    let g = CODER_REQUEST@ + request + f;
    reveal_strlit("\n\n");
    reveal_strlit("\n\nUser request:\n");
    reveal_strlit("\n\nCoordinator goal:\n");
    reveal_strlit("\n\nProject snapshot:\n");
    let blank = "\n\n"@;
    assert(question =~= a + (project_dir + CODER_REQUEST@) + (request + f));
    lemma_holds_middle(a, project_dir + CODER_REQUEST@, request + f);
    let goal_rest = CODER_GOAL@.skip(2) + goal + e;
    assert(CODER_GOAL@ =~= blank + CODER_GOAL@.skip(2));
    assert(question =~= b + (CODER_REQUEST@ + request + blank) + goal_rest);
    lemma_holds_middle(b, CODER_REQUEST@ + request + blank, goal_rest);
    let snapshot_rest = CODER_SNAPSHOT@.skip(2) + snapshot + CODER_TAIL@;
    assert(CODER_SNAPSHOT@ =~= blank + CODER_SNAPSHOT@.skip(2));
    assert(question =~= c + (CODER_GOAL@ + goal + blank) + snapshot_rest);
    lemma_holds_middle(c, CODER_GOAL@ + goal + blank, snapshot_rest);
    assert(question =~= d + (CODER_SNAPSHOT@ + snapshot) + CODER_TAIL@);
    lemma_holds_middle(d, CODER_SNAPSHOT@ + snapshot, CODER_TAIL@);
    assert(question =~= a + project_dir + g);
    lemma_holds_middle(a, project_dir, g);
    assert(question =~= (b + CODER_REQUEST@) + request + f);
    lemma_holds_middle(b + CODER_REQUEST@, request, f);
    assert(question =~= (c + CODER_GOAL@) + goal + e);
    lemma_holds_middle(c + CODER_GOAL@, goal, e);
    assert(question =~= (d + CODER_SNAPSHOT@) + snapshot + CODER_TAIL@);
    lemma_holds_middle(d + CODER_SNAPSHOT@, snapshot, CODER_TAIL@);
    assert(question.subrange(0, b.len() as int) =~= b);
    let last = snapshot + CODER_TAIL@;
    assert(question.subrange(question.len() - last.len(), question.len() as int) =~= last);
}

/// What the coders are asked, apart from their roles.
pub fn coder_prompt(project_dir: &str, request: &str, goal: &str, snapshot: &str) -> (r: String)
    ensures
        r@ == coder_question(project_dir@, request@, goal@, snapshot@),
{
    let mut out = cat7(
        CODER_HEAD,
        project_dir,
        CODER_REQUEST,
        request,
        CODER_GOAL,
        goal,
        CODER_SNAPSHOT,
    );
    out.append(snapshot);
    out.append(CODER_TAIL);
    out
}

/// What a coder is asked once more that changed nothing.
pub open spec fn retry_question(question: Seq<char>) -> Seq<char> {
    question + RETRY_TAIL@
}

/// A coder that is asked once more is asked the same, and told that it has to change something.
pub proof fn the_question_is_repeated(question: Seq<char>)
    ensures
        begins(retry_question(question), question),
        holds(retry_question(question), question),
        ends(retry_question(question), RETRY_TAIL@),
        retry_question(question).len() == question.len() + RETRY_TAIL@.len(),
{
    let all = retry_question(question);
    assert(all.subrange(0, question.len() as int) =~= question);
    assert(occurs_at(all, question, 0));
    assert(all.subrange(all.len() - RETRY_TAIL@.len(), all.len() as int) =~= RETRY_TAIL@);
}

/// What the repair agent is asked.
pub open spec fn repair_question(
    project_dir: Seq<char>,
    coder_answer: Seq<char>,
    errors: Seq<char>,
) -> Seq<char> {
    REPAIR_HEAD@ + project_dir + REPAIR_OUTPUT@ + shortened(coder_answer, 30000) + REPAIR_ERRORS@
        + shortened(errors, 10000) + REPAIR_TAIL@
}

/// The repair agent gets to see the project folder, and under their headings what the coder said and
/// what was wrong with it, both whole unless they are very long and then as far as there is room.
#[verifier::rlimit(40)]
pub proof fn the_repair_agent_is_told_everything(
    project_dir: Seq<char>,
    coder_answer: Seq<char>,
    errors: Seq<char>,
)
    ensures
        ({
            let question = repair_question(project_dir, coder_answer, errors);
            &&& holds(question, project_dir)
            &&& coder_answer.len() <= 30000 ==> holds(question, coder_answer + "\n\nError context:\n"@)
            &&& errors.len() <= 10000 ==> holds(question, "\n\nError context:\n"@ + errors)
            &&& coder_answer.len() > 30000 ==> holds(question, coder_answer.take(30000))
            &&& errors.len() > 10000 ==> holds(
                question,
                "\n\nError context:\n"@ + errors.take(10000),
            )
            &&& begins(question, REPAIR_HEAD@ + project_dir + REPAIR_OUTPUT@)
            &&& ends(question, REPAIR_TAIL@)
        }),
{
    let question = repair_question(project_dir, coder_answer, errors);
    let said = shortened(coder_answer, 30000);
    let wrong = shortened(errors, 10000);
    let a = REPAIR_HEAD@;
    let b = a + project_dir + REPAIR_OUTPUT@;
    let c = b + said;
    assert(question =~= a + project_dir + (REPAIR_OUTPUT@ + said + REPAIR_ERRORS@ + wrong
        + REPAIR_TAIL@));
    lemma_holds_middle(
        a,
        project_dir,
        REPAIR_OUTPUT@ + said + REPAIR_ERRORS@ + wrong + REPAIR_TAIL@,
    );
    assert(question =~= b + (said + REPAIR_ERRORS@) + (wrong + REPAIR_TAIL@));
    lemma_holds_middle(b, said + REPAIR_ERRORS@, wrong + REPAIR_TAIL@);
    assert(question =~= c + (REPAIR_ERRORS@ + wrong) + REPAIR_TAIL@);
    lemma_holds_middle(c, REPAIR_ERRORS@ + wrong, REPAIR_TAIL@);
    if coder_answer.len() > 30000 {
        let cut = coder_answer.take(30000);
        assert(said + REPAIR_ERRORS@ =~= Seq::<char>::empty() + cut + (said.skip(30000)
            + REPAIR_ERRORS@));
        lemma_holds_middle(Seq::empty(), cut, said.skip(30000) + REPAIR_ERRORS@);
        lemma_holds_part(question, said + REPAIR_ERRORS@, cut);
    }
    if errors.len() > 10000 {
        let cut = REPAIR_ERRORS@ + errors.take(10000);
        assert(REPAIR_ERRORS@ + wrong =~= Seq::<char>::empty() + cut + wrong.skip(10000));
        lemma_holds_middle(Seq::empty(), cut, wrong.skip(10000));
        lemma_holds_part(question, REPAIR_ERRORS@ + wrong, cut);
    }
    assert(question.subrange(0, b.len() as int) =~= b);
    assert(question.subrange(question.len() - REPAIR_TAIL@.len(), question.len() as int)
        =~= REPAIR_TAIL@);
}

/// What the repair agent is asked.
pub fn repair_prompt(project_dir: &str, coder_answer: &str, errors: &str) -> (r: String)
    ensures
        r@ == repair_question(project_dir@, coder_answer@, errors@),
{
    cat7(
        REPAIR_HEAD,
        project_dir,
        REPAIR_OUTPUT,
        truncate_text(coder_answer, 30000).as_str(),
        REPAIR_ERRORS,
        truncate_text(errors, 10000).as_str(),
        REPAIR_TAIL,
    )
}

/// What the models are asked in the last attempt.
pub open spec fn emergency_question(
    request: Seq<char>,
    goal: Seq<char>,
    snapshot: Seq<char>,
    limit: usize,
) -> Seq<char> {
    EMERGENCY_HEAD@ + request + EMERGENCY_GOAL@ + goal + EMERGENCY_SNAPSHOT@ + shortened(
        snapshot,
        at_most(limit, 40000),
    ) + EMERGENCY_TAIL@
}

/// In the last attempt as well, the models get to see the request of the user word for word, the
/// goal, and the project, all of it unless it is longer than allowed, and then as far as that goes.
#[verifier::rlimit(40)]
pub proof fn the_last_attempt_is_told_everything(
    request: Seq<char>,
    goal: Seq<char>,
    snapshot: Seq<char>,
    limit: usize,
)
    ensures
        ({
            let question = emergency_question(request, goal, snapshot, limit);
            let most = if limit <= 40000 {
                limit as int
            } else {
                40000
            };
            &&& holds(question, request + "\n\nGoal:\n"@)
            &&& holds(question, "\n\nGoal:\n"@ + goal + "\n\nProject snapshot:\n"@)
            &&& snapshot.len() <= most ==> holds(question, "\n\nProject snapshot:\n"@ + snapshot)
            &&& snapshot.len() > most ==> holds(
                question,
                "\n\nProject snapshot:\n"@ + snapshot.take(most),
            )
            &&& begins(question, EMERGENCY_HEAD@ + request)
            &&& ends(question, EMERGENCY_TAIL@)
            &&& holds(question, request)
            &&& holds(question, goal)
        }),
{
    let question = emergency_question(request, goal, snapshot, limit);
    let most = at_most(limit, 40000);
    let seen = shortened(snapshot, most);
    let a = EMERGENCY_HEAD@;
    let b = a + request;
    let c = b + EMERGENCY_GOAL@ + goal;
    let d = EMERGENCY_SNAPSHOT@ + seen;
    assert(question =~= a + (request + EMERGENCY_GOAL@) + (goal + d + EMERGENCY_TAIL@));
    lemma_holds_middle(a, request + EMERGENCY_GOAL@, goal + d + EMERGENCY_TAIL@);
    let told = EMERGENCY_GOAL@ + goal + EMERGENCY_SNAPSHOT@;
    assert(question =~= b + told + (seen + EMERGENCY_TAIL@));
    lemma_holds_middle(b, told, seen + EMERGENCY_TAIL@);
    assert(question =~= c + d + EMERGENCY_TAIL@);
    lemma_holds_middle(c, d, EMERGENCY_TAIL@);
    if snapshot.len() > most {
        let cut = EMERGENCY_SNAPSHOT@ + snapshot.take(most);
        assert(d =~= Seq::<char>::empty() + cut + seen.skip(most));
        lemma_holds_middle(Seq::empty(), cut, seen.skip(most));
        lemma_holds_part(question, d, cut);
    }
    assert(request + EMERGENCY_GOAL@ =~= Seq::<char>::empty() + request + EMERGENCY_GOAL@);
    lemma_holds_middle(Seq::empty(), request, EMERGENCY_GOAL@);
    lemma_holds_part(question, request + EMERGENCY_GOAL@, request);
    lemma_holds_middle(EMERGENCY_GOAL@, goal, EMERGENCY_SNAPSHOT@);
    lemma_holds_part(question, told, goal);
    assert(question.subrange(0, b.len() as int) =~= b);
    assert(question.subrange(question.len() - EMERGENCY_TAIL@.len(), question.len() as int)
        =~= EMERGENCY_TAIL@);
}

/// What the models are asked in the last attempt.
pub fn emergency_prompt(request: &str, goal: &str, snapshot: &str, limit: usize) -> (r: String)
    ensures
        r@ == emergency_question(request@, goal@, snapshot@, limit),
{
    let bound: usize = if limit <= 40000 {
        limit
    } else {
        40000
    };
    cat7(
        EMERGENCY_HEAD,
        request,
        EMERGENCY_GOAL,
        goal,
        EMERGENCY_SNAPSHOT,
        truncate_text(snapshot, bound).as_str(),
        EMERGENCY_TAIL,
    )
}

/// `b` in words.
pub open spec fn truth(b: bool) -> Seq<char> {
    if b {
        "true"@
    } else {
        "false"@
    }
}

/// `b` in words.
pub fn truth_text(b: bool) -> (r: &'static str)
    ensures
        r@ == truth(b),
{
    if b {
        "true"
    } else {
        "false"
    }
}

/// What the model is asked that writes the final answer.
pub open spec fn final_question(
    request: Seq<char>,
    goal: Seq<char>,
    summary: Option<Seq<char>>,
    changed: Seq<Seq<char>>,
    auto_apply: bool,
    had_error: bool,
    test_output: Seq<char>,
    fallback: Seq<char>,
) -> Seq<char> {
    FINAL_HEAD@ + request + FINAL_GOAL@ + shortened(goal, 1200) + FINAL_SUMMARY@ + match summary {
        Some(s) => s,
        None => ""@,
    } + FINAL_CHANGED@ + if changed.len() == 0 {
        "(none)"@
    } else {
        joined(changed, ", "@)
    } + FINAL_AUTO@ + truth(auto_apply) + FINAL_ERRORS@ + truth(had_error) + FINAL_TESTS@
        + shortened(test_output, 2400) + FINAL_FALLBACK@ + fallback + FINAL_TAIL@
}

/// The model that writes the final answer gets to see, each under its heading, the request word for
/// word, the goal, the summary, every changed file, whether changes were to be applied and whether
/// any failed, what the tests printed, and the answer that it may put into better words.
#[verifier::rlimit(40)]
pub proof fn the_final_question_tells_what_happened(
    request: Seq<char>,
    goal: Seq<char>,
    summary: Option<Seq<char>>,
    changed: Seq<Seq<char>>,
    auto_apply: bool,
    had_error: bool,
    test_output: Seq<char>,
    fallback: Seq<char>,
)
    ensures
        ({
            let question = final_question(
                request,
                goal,
                summary,
                changed,
                auto_apply,
                had_error,
                test_output,
                fallback,
            );
            &&& holds(question, request + "\n\nCoordinator goal:\n"@)
            &&& goal.len() <= 1200 ==> holds(question, "\n\nCoordinator goal:\n"@ + goal)
            &&& summary matches Some(s) ==> holds(
                question,
                "\n\nInternal coder summary:\n"@ + s + "\n\nChanged files:\n"@,
            )
            &&& changed.len() == 0 ==> holds(question, "\n\nChanged files:\n(none)"@)
            &&& forall|i: int|
                0 <= i < changed.len() ==> holds(question, #[trigger] changed[i])
            &&& auto_apply ==> holds(question, "\n\nAuto-apply:\ntrue"@)
            &&& !auto_apply ==> holds(question, "\n\nAuto-apply:\nfalse"@)
            &&& had_error ==> holds(question, "\n\nAction errors:\ntrue"@)
            &&& !had_error ==> holds(question, "\n\nAction errors:\nfalse"@)
            &&& test_output.len() <= 2400 ==> holds(
                question,
                "\n\nShortened test output:\n"@ + test_output,
            )
            &&& ends(question, fallback + FINAL_TAIL@)
            &&& begins(question, FINAL_HEAD@ + request)
        }),
{
    let question = final_question(
        request,
        goal,
        summary,
        changed,
        auto_apply,
        had_error,
        test_output,
        fallback,
    );
    let short_goal = shortened(goal, 1200);
    let told = match summary {
        Some(s) => s,
        None => ""@,
    };
    let files = if changed.len() == 0 {
        "(none)"@
    } else {
        joined(changed, ", "@)
    };
    let tests = shortened(test_output, 2400);
    let p1 = FINAL_HEAD@ + request;
    let p2 = p1 + FINAL_GOAL@ + short_goal;
    let p3 = p2 + FINAL_SUMMARY@ + told;
    let p4 = p3 + FINAL_CHANGED@ + files;
    let p5 = p4 + FINAL_AUTO@ + truth(auto_apply);
    let p6 = p5 + FINAL_ERRORS@ + truth(had_error);
    let p7 = p6 + FINAL_TESTS@ + tests;
    let q7 = FINAL_FALLBACK@ + fallback + FINAL_TAIL@;
    let q6 = FINAL_TESTS@ + tests + q7;
    let q5 = FINAL_ERRORS@ + truth(had_error) + q6;
    let q4 = FINAL_AUTO@ + truth(auto_apply) + q5;
    let q3 = FINAL_CHANGED@ + files + q4;
    let q2 = FINAL_SUMMARY@ + told + q3;
    let q1 = FINAL_GOAL@ + short_goal + q2;
    lemma_regrouped(p7, FINAL_FALLBACK@, fallback, FINAL_TAIL@);
    lemma_regrouped(p6, FINAL_TESTS@, tests, q7);
    lemma_regrouped(p5, FINAL_ERRORS@, truth(had_error), q6);
    lemma_regrouped(p4, FINAL_AUTO@, truth(auto_apply), q5);
    lemma_regrouped(p3, FINAL_CHANGED@, files, q4);
    lemma_regrouped(p2, FINAL_SUMMARY@, told, q3);
    lemma_regrouped(p1, FINAL_GOAL@, short_goal, q2);
    lemma_with_next(p2, FINAL_SUMMARY@, told, FINAL_CHANGED@, files + q4);
    lemma_ends_with(p7 + FINAL_FALLBACK@, fallback, FINAL_TAIL@);
    lemma_begins_with(FINAL_HEAD@, request, FINAL_GOAL@, short_goal, q2);
    assert(FINAL_CHANGED@ + (files + q4) == q3) by {
        assert(FINAL_CHANGED@ + (files + q4) =~= q3);
    }
    lemma_final_words(auto_apply, had_error);
    if changed.len() == 0 {
        reveal_strlit("\n\nChanged files:\n");
        reveal_strlit("\n\nChanged files:\n(none)");
        reveal_strlit("(none)");
        assert("\n\nChanged files:\n(none)"@ =~= FINAL_CHANGED@ + files);
    }
    assert forall|i: int| 0 <= i < changed.len() implies holds(question, #[trigger] changed[i]) by {
        lemma_joined_holds(changed, ", "@, i);
        lemma_holds_part(question, files, changed[i]);
    }
}

/// A text in other groups is the same text, and holds each of the groups.
proof fn lemma_regrouped(p: Seq<char>, a: Seq<char>, b: Seq<char>, q: Seq<char>)
    ensures
        p + a + b + q == p + (a + b + q),
        holds(p + a + b + q, a + b),
        holds(p + a + b + q, b),
{
    assert(p + a + b + q =~= p + (a + b + q));
    assert(p + a + b + q =~= p + (a + b) + q);
    lemma_holds_middle(p, a + b, q);
    lemma_holds_middle(p + a, b, q);
}

/// A text holds three parts of it that follow on each other.
proof fn lemma_with_next(p: Seq<char>, a: Seq<char>, b: Seq<char>, c: Seq<char>, q: Seq<char>)
    ensures
        holds(p + a + b + (c + q), a + b + c),
{
    assert(p + a + b + (c + q) =~= p + (a + b + c) + q);
    lemma_holds_middle(p, a + b + c, q);
}

/// A text ends with its last two parts.
proof fn lemma_ends_with(p: Seq<char>, a: Seq<char>, b: Seq<char>)
    ensures
        ends(p + a + b, a + b),
{
    let all = p + a + b;
    assert(all.subrange(p.len() as int, all.len() as int) =~= a + b);
}

/// A text begins with its first two parts, and holds the second with the third.
proof fn lemma_begins_with(p: Seq<char>, a: Seq<char>, b: Seq<char>, c: Seq<char>, q: Seq<char>)
    ensures
        begins(p + a + (b + c + q), p + a),
        holds(p + a + (b + c + q), a + b),
{
    let all = p + a + (b + c + q);
    assert(all.subrange(0, (p + a).len() as int) =~= p + a);
    assert(all =~= p + (a + b) + (c + q));
    lemma_holds_middle(p, a + b, c + q);
}

/// The two headings with the word behind them.
proof fn lemma_final_words(auto_apply: bool, had_error: bool)
    ensures
        auto_apply ==> FINAL_AUTO@ + truth(auto_apply) == "\n\nAuto-apply:\ntrue"@,
        !auto_apply ==> FINAL_AUTO@ + truth(auto_apply) == "\n\nAuto-apply:\nfalse"@,
        had_error ==> FINAL_ERRORS@ + truth(had_error) == "\n\nAction errors:\ntrue"@,
        !had_error ==> FINAL_ERRORS@ + truth(had_error) == "\n\nAction errors:\nfalse"@,
{
    reveal_strlit("true");
    reveal_strlit("false");
    reveal_strlit("\n\nAuto-apply:\n");
    reveal_strlit("\n\nAuto-apply:\ntrue");
    reveal_strlit("\n\nAuto-apply:\nfalse");
    reveal_strlit("\n\nAction errors:\n");
    reveal_strlit("\n\nAction errors:\ntrue");
    reveal_strlit("\n\nAction errors:\nfalse");
    if auto_apply {
        assert(FINAL_AUTO@ + truth(auto_apply) =~= "\n\nAuto-apply:\ntrue"@);
    } else {
        assert(FINAL_AUTO@ + truth(auto_apply) =~= "\n\nAuto-apply:\nfalse"@);
    }
    if had_error {
        assert(FINAL_ERRORS@ + truth(had_error) =~= "\n\nAction errors:\ntrue"@);
    } else {
        assert(FINAL_ERRORS@ + truth(had_error) =~= "\n\nAction errors:\nfalse"@);
    }
}

/// What is joined is held by the whole, part by part.
pub proof fn lemma_joined_holds(parts: Seq<Seq<char>>, sep: Seq<char>, i: int)
    requires
        0 <= i < parts.len(),
    ensures
        holds(joined(parts, sep), parts[i]),
    decreases parts.len(),
{
    let all = joined(parts, sep);
    if parts.len() == 1 {
        assert(all.subrange(0, all.len() as int) =~= parts[0]);
        assert(occurs_at(all, parts[0], 0));
    } else {
        let front = joined(parts.drop_last(), sep);
        if i < parts.len() - 1 {
            lemma_joined_holds(parts.drop_last(), sep, i);
            assert(all =~= Seq::<char>::empty() + front + (sep + parts.last()));
            lemma_holds_middle(Seq::empty(), front, sep + parts.last());
            lemma_holds_part(all, front, parts[i]);
        } else {
            assert(all =~= (front + sep) + parts.last() + Seq::<char>::empty());
            lemma_holds_middle(front + sep, parts.last(), Seq::empty());
        }
    }
}

/// What the model is asked that writes the final answer.
pub fn final_prompt(
    request: &str,
    goal: &str,
    summary: Option<&str>,
    changed: &Vec<String>,
    auto_apply: bool,
    had_error: bool,
    test_output: &str,
    fallback: &str,
) -> (r: String)
    ensures
        r@ == final_question(
            request@,
            goal@,
            opt_str(summary),
            texts(changed@),
            auto_apply,
            had_error,
            test_output@,
            fallback@,
        ),
{
    let mut out = cat5(
        FINAL_HEAD,
        request,
        FINAL_GOAL,
        truncate_text(goal, 1200).as_str(),
        FINAL_SUMMARY,
    );
    match summary {
        Some(s) => {
            out.append(s);
        },
        None => {
            out.append("");
        },
    }
    out.append(FINAL_CHANGED);
    assert(texts(changed@).len() == changed@.len());
    if changed.len() == 0 {
        out.append("(none)");
    } else {
        out.append(join(changed, ", ").as_str());
    }
    out.append(FINAL_AUTO);
    out.append(truth_text(auto_apply));
    out.append(FINAL_ERRORS);
    out.append(truth_text(had_error));
    out.append(FINAL_TESTS);
    out.append(truncate_text(test_output, 2400).as_str());
    out.append(FINAL_FALLBACK);
    out.append(fallback);
    out.append(FINAL_TAIL);
    out
}

} // verus!
