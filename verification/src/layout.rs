//! Where the program keeps its files.

use vstd::prelude::*;
use crate::text::{str_texts, texts};

verus! {

/// The folder that a place lies in.
#[derive(Clone, Copy, Debug, PartialEq, Eq, Structural)]
pub enum Base {
    /// The folder of the program.
    Program,
    /// The current folder.
    Current,
    /// No folder: the place is a full path.
    Nowhere,
}

/// A place: names, one inside the other, below a folder.
#[derive(Debug)]
pub struct Place {
    pub base: Base,
    pub parts: Vec<String>,
}

/// What a [`Place`] says.
pub struct Spot {
    pub base: Base,
    pub parts: Seq<Seq<char>>,
}

impl View for Place {
    type V = Spot;

    open spec fn view(&self) -> Spot {
        Spot { base: self.base, parts: texts(self.parts@) }
    }
}

/// What a list of places says.
pub open spec fn spots(v: Seq<Place>) -> Seq<Spot> {
    v.map_values(|p: Place| p@)
}

/// The names in a list.
fn names(list: &Vec<&'static str>) -> (r: Vec<String>)
    ensures
        texts(r@) == str_texts(list@),
{
    let n: usize = list.len();
    let mut out: Vec<String> = Vec::new();
    let mut i: usize = 0;
    while i < n
        invariant
            i <= n == list@.len(),
            out@.len() == i,
            forall|k: int| 0 <= k < i ==> (#[trigger] out@[k])@ == list@[k]@,
        decreases n - i,
    {
        out.push(list[i].to_owned());
        i += 1;
    }
    assert(texts(out@) =~= str_texts(list@));
    out
}

/// The file that the state is kept in, below the folder of the program.
pub fn state_file_path() -> (r: Vec<String>)
    ensures
        texts(r@) == seq![".local_ai_builder"@, "state.json"@],
{
    let list: Vec<&'static str> = vec![".local_ai_builder", "state.json"];
    assert(str_texts(list@) =~= seq![".local_ai_builder"@, "state.json"@]);
    names(&list)
}

/// Where the model server is looked for, in order.
pub open spec fn server_spots() -> Seq<Spot> {
    seq![
        Spot { base: Base::Program, parts: seq!["runtime"@, "Ollama"@, "ollama.exe"@] },
        Spot {
            base: Base::Program,
            parts: seq!["DISTRIBUTION"@, "runtime"@, "Ollama"@, "ollama.exe"@],
        },
        Spot { base: Base::Program, parts: seq!["PROGRAMME"@, "Ollama"@, "ollama.exe"@] },
        Spot {
            base: Base::Nowhere,
            parts: seq!["C:\\Users\\tarek\\AppData\\Local\\Programs\\Ollama\\ollama.exe"@],
        },
    ]
}

/// Where the model server is looked for, in order.
pub fn server_places() -> (r: Vec<Place>)
    ensures
        spots(r@) == server_spots(),
{
    let a: Vec<&'static str> = vec!["runtime", "Ollama", "ollama.exe"];
    let b: Vec<&'static str> = vec!["DISTRIBUTION", "runtime", "Ollama", "ollama.exe"];
    let c: Vec<&'static str> = vec!["PROGRAMME", "Ollama", "ollama.exe"];
    let d: Vec<&'static str> = vec![
        "C:\\Users\\tarek\\AppData\\Local\\Programs\\Ollama\\ollama.exe",
    ];
    assert(str_texts(a@) =~= server_spots()[0].parts);
    assert(str_texts(b@) =~= server_spots()[1].parts);
    assert(str_texts(c@) =~= server_spots()[2].parts);
    assert(str_texts(d@) =~= server_spots()[3].parts);
    let mut out: Vec<Place> = Vec::new();
    out.push(Place { base: Base::Program, parts: names(&a) });
    out.push(Place { base: Base::Program, parts: names(&b) });
    out.push(Place { base: Base::Program, parts: names(&c) });
    out.push(Place { base: Base::Nowhere, parts: names(&d) });
    assert(spots(out@) =~= server_spots());
    out
}

/// Where the models are looked for, in order.
pub open spec fn model_spots() -> Seq<Spot> {
    seq![
        Spot { base: Base::Program, parts: seq!["runtime"@, ".ollama"@, "models"@] },
        Spot {
            base: Base::Program,
            parts: seq!["DISTRIBUTION"@, "runtime"@, ".ollama"@, "models"@],
        },
        Spot {
            base: Base::Current,
            parts: seq!["DISTRIBUTION"@, "runtime"@, ".ollama"@, "models"@],
        },
        Spot { base: Base::Current, parts: seq!["runtime"@, ".ollama"@, "models"@] },
    ]
}

/// Where the models are looked for, in order.
pub fn model_places() -> (r: Vec<Place>)
    ensures
        spots(r@) == model_spots(),
{
    let near: Vec<&'static str> = vec!["runtime", ".ollama", "models"];
    let far: Vec<&'static str> = vec!["DISTRIBUTION", "runtime", ".ollama", "models"];
    assert(str_texts(near@) =~= model_spots()[0].parts);
    assert(str_texts(far@) =~= model_spots()[1].parts);
    let mut out: Vec<Place> = Vec::new();
    out.push(Place { base: Base::Program, parts: names(&near) });
    out.push(Place { base: Base::Program, parts: names(&far) });
    out.push(Place { base: Base::Current, parts: names(&far) });
    out.push(Place { base: Base::Current, parts: names(&near) });
    assert(spots(out@) =~= model_spots());
    out
}

/// The first of the places that exists.
pub open spec fn first_there(exists: Seq<bool>, from: int) -> Option<int>
    decreases exists.len() - from,
{
    if from < 0 || from >= exists.len() {
        None
    } else if exists[from] {
        Some(from)
    } else {
        first_there(exists, from + 1)
    }
}

/// The first of the places that exists is one that exists, and none in front of it does; there is
/// none exactly where no place exists.
pub proof fn the_first_there_is_taken(exists: Seq<bool>)
    ensures
        match first_there(exists, 0) {
            Some(i) => 0 <= i < exists.len() && exists[i] && forall|j: int|
                0 <= j < i ==> !#[trigger] exists[j],
            None => forall|j: int| 0 <= j < exists.len() ==> !#[trigger] exists[j],
        },
{
    lemma_first_there(exists, 0);
}

/// What looking from a place on comes to.
proof fn lemma_first_there(exists: Seq<bool>, from: int)
    requires
        0 <= from,
    ensures
        match first_there(exists, from) {
            Some(i) => from <= i < exists.len() && exists[i] && forall|j: int|
                from <= j < i ==> !#[trigger] exists[j],
            None => forall|j: int| from <= j < exists.len() ==> !#[trigger] exists[j],
        },
    decreases exists.len() - from,
{
    if from < exists.len() && !exists[from] {
        lemma_first_there(exists, from + 1);
    }
}

/// The first of the places that exists.
pub(crate) fn first_existing(exists: &Vec<bool>) -> (r: Option<usize>)
    ensures
        match r {
            Some(i) => first_there(exists@, 0) == Some(i as int) && i < exists@.len(),
            None => first_there(exists@, 0) is None,
        },
{
    let n: usize = exists.len();
    let mut i: usize = 0;
    while i < n
        invariant
            i <= n == exists@.len(),
            first_there(exists@, 0) == first_there(exists@, i as int),
        decreases n - i,
    {
        if exists[i] {
            return Some(i);
        }
        i += 1;
    }
    None
}

/// Which of the places of the model server is taken, if it is in any of them.
pub fn find_ollama(exists: &Vec<bool>) -> (r: Option<usize>)
    ensures
        match r {
            Some(i) => first_there(exists@, 0) == Some(i as int) && i < exists@.len(),
            None => first_there(exists@, 0) is None,
        },
{
    first_existing(exists)
}

/// Which of the places of the models is taken: the first that exists, or else the first of all.
pub open spec fn models_spot(exists: Seq<bool>) -> int {
    match first_there(exists, 0) {
        Some(i) => i,
        None => 0,
    }
}

/// The models are taken from the first place that exists, and where none does, they are put into the
/// first of all.
pub proof fn models_have_a_place(exists: Seq<bool>, i: int)
    requires
        exists.len() > 0,
    ensures
        0 <= models_spot(exists) < exists.len(),
        0 <= i < exists.len() && exists[i] ==> exists[models_spot(exists)] && models_spot(exists) <= i,
        (forall|j: int| 0 <= j < exists.len() ==> !#[trigger] exists[j]) ==> models_spot(exists) == 0,
{
    the_first_there_is_taken(exists);
}

/// Which of the places of the models is taken: the first that exists, or else the first of all.
pub fn distribution_runtime_ollama_models_dir(exists: &Vec<bool>) -> (r: usize)
    ensures
        r == models_spot(exists@),
{
    match first_existing(exists) {
        Some(i) => i,
        None => 0,
    }
}

/// Which of the places of the models is taken for a project: the same for all of them.
pub fn project_ollama_models_dir(exists: &Vec<bool>) -> (r: usize)
    ensures
        r == models_spot(exists@),
{
    distribution_runtime_ollama_models_dir(exists)
}

/// The folder that memory and training data are kept in.
#[derive(Clone, Copy, Debug, PartialEq, Eq, Structural)]
pub enum DataRoot {
    /// The folder of the program.
    Program,
    /// The folder `DISTRIBUTION` in it.
    ProgramDistribution,
    /// The folder `DISTRIBUTION` in the current folder.
    CurrentDistribution,
}

/// The folder that memory and training data are kept in.
pub open spec fn data_root(
    installed: bool,
    distribution_exists: bool,
    current_known: bool,
) -> DataRoot {
    if installed {
        DataRoot::Program
    } else if distribution_exists || !current_known {
        DataRoot::ProgramDistribution
    } else {
        DataRoot::CurrentDistribution
    }
}

/// An installed program keeps its data beside itself, whatever else is there; any other keeps them in
/// a folder `DISTRIBUTION`, and goes on with one that it has before it makes one in the current folder.
pub proof fn data_stay_where_they_are(installed: bool, distribution_exists: bool, current_known: bool)
    ensures
        data_root(installed, distribution_exists, current_known) == DataRoot::Program <==> installed,
        !installed && distribution_exists ==> data_root(
            installed,
            distribution_exists,
            current_known,
        ) == DataRoot::ProgramDistribution,
        data_root(installed, distribution_exists, current_known) == DataRoot::CurrentDistribution
            ==> current_known,
        !installed && !distribution_exists && current_known ==> data_root(
            installed,
            distribution_exists,
            current_known,
        ) == DataRoot::CurrentDistribution,
{
}

/// The folder that memory and training data are kept in: that of the program where it is an
/// installed one, or else a folder `DISTRIBUTION`, rather in the current folder than in that of
/// the program unless it is there already.
pub fn distribution_data_root(
    runtime_exists: bool,
    program_exists: bool,
    old_program_exists: bool,
    distribution_exists: bool,
    current_known: bool,
) -> (r: DataRoot)
    ensures
        r == data_root(
            runtime_exists || program_exists || old_program_exists,
            distribution_exists,
            current_known,
        ),
        r == if runtime_exists || program_exists || old_program_exists {
            DataRoot::Program
        } else if distribution_exists || !current_known {
            DataRoot::ProgramDistribution
        } else {
            DataRoot::CurrentDistribution
        },
{
    if runtime_exists || program_exists || old_program_exists {
        DataRoot::Program
    } else if distribution_exists || !current_known {
        DataRoot::ProgramDistribution
    } else {
        DataRoot::CurrentDistribution
    }
}

/// The folders of memory and training data, each as the names below the folder they are kept in.
pub open spec fn data_folders() -> Seq<Seq<Seq<char>>> {
    seq![
        seq!["memory"@],
        seq!["memory"@, "conversations"@],
        seq!["memory"@, "agent_traffic"@],
        seq!["memory"@, "summaries"@],
        seq!["memory"@, "projects"@],
        seq!["training"@],
        seq!["training"@, "raw"@],
        seq!["training"@, "errors"@],
        seq!["training"@, "success"@],
        seq!["training"@, "fine_tuning"@],
        seq!["training"@, "exports"@],
        seq!["training"@, "datasets"@],
    ]
}

/// One or two names.
fn folder(first: &'static str, second: &'static str) -> (r: Vec<String>)
    ensures
        texts(r@) == if second@.len() == 0 {
            seq![first@]
        } else {
            seq![first@, second@]
        },
{
    let mut out: Vec<String> = Vec::new();
    out.push(first.to_owned());
    if !second.is_empty() {
        out.push(second.to_owned());
        assert(texts(out@) =~= seq![first@, second@]);
    } else {
        assert(texts(out@) =~= seq![first@]);
    }
    out
}

/// The folders of memory and training data.
pub fn ensure_distribution_data_dirs() -> (r: Vec<Vec<String>>)
    ensures
        r@.map_values(|v: Vec<String>| texts(v@)) == data_folders(),
{
    proof {
        reveal_strlit("");
        reveal_strlit("conversations");
        reveal_strlit("agent_traffic");
        reveal_strlit("summaries");
        reveal_strlit("projects");
        reveal_strlit("raw");
        reveal_strlit("errors");
        reveal_strlit("success");
        reveal_strlit("fine_tuning");
        reveal_strlit("exports");
        reveal_strlit("datasets");
    }
    let mut out: Vec<Vec<String>> = Vec::new();
    out.push(folder("memory", ""));
    out.push(folder("memory", "conversations"));
    out.push(folder("memory", "agent_traffic"));
    out.push(folder("memory", "summaries"));
    out.push(folder("memory", "projects"));
    out.push(folder("training", ""));
    out.push(folder("training", "raw"));
    out.push(folder("training", "errors"));
    out.push(folder("training", "success"));
    out.push(folder("training", "fine_tuning"));
    out.push(folder("training", "exports"));
    out.push(folder("training", "datasets"));
    assert(out@.map_values(|v: Vec<String>| texts(v@)) =~= data_folders());
    out
}

/// The files that are read to remember, in order, each as the names below the folder of memory.
pub open spec fn memory_files() -> Seq<Seq<Seq<char>>> {
    seq![seq!["global.md"@], seq!["summaries"@, "global.md"@], seq!["projects"@, "current.md"@]]
}

/// The files that are read to remember, in order, each as the names below the folder of memory.
pub fn remembered_files() -> (r: Vec<Vec<String>>)
    ensures
        r@.map_values(|v: Vec<String>| texts(v@)) == memory_files(),
{
    proof {
        reveal_strlit("");
        reveal_strlit("global.md");
        reveal_strlit("current.md");
    }
    let mut out: Vec<Vec<String>> = Vec::new();
    out.push(folder("global.md", ""));
    out.push(folder("summaries", "global.md"));
    out.push(folder("projects", "current.md"));
    assert(out@.map_values(|v: Vec<String>| texts(v@)) =~= memory_files());
    out
}

/// What is kept besides the state.
#[derive(Clone, Copy, Debug, PartialEq, Eq, Structural)]
pub enum DataFile {
    /// Every message and its answer.
    History,
    /// What is remembered of the latest run.
    CurrentMemory,
    /// What the agents said to each other.
    Traffic,
    /// The runs that failed, or those that did not.
    Runs { failed: bool },
    /// All runs.
    AllRuns,
    /// The chats to train with.
    FineTuning,
    /// What the training made.
    Adapter,
    /// How the training went.
    TrainingStatus,
    /// The text that explains the training data.
    TrainingReadme,
    /// The program that trains.
    Trainer,
}

/// Where something is kept, as the names below the folder of memory and training data.
pub open spec fn data_names(file: DataFile) -> Seq<Seq<char>> {
    match file {
        DataFile::History => seq!["memory"@, "conversations"@, "history.jsonl"@],
        DataFile::CurrentMemory => seq!["memory"@, "projects"@, "current.md"@],
        DataFile::Traffic => seq!["memory"@, "agent_traffic"@, "traffic.log"@],
        DataFile::Runs { failed: true } => seq!["training"@, "errors"@, "runs.jsonl"@],
        DataFile::Runs { failed: false } => seq!["training"@, "success"@, "runs.jsonl"@],
        DataFile::AllRuns => seq!["training"@, "raw"@, "all_runs.jsonl"@],
        DataFile::FineTuning => seq!["training"@, "fine_tuning"@, "chat_messages.jsonl"@],
        DataFile::Adapter => seq!["training"@, "online_adapter"@],
        DataFile::TrainingStatus => seq!["training"@, "short_training_status.log"@],
        DataFile::TrainingReadme => seq!["training"@, "README_TRAINING_DATA.txt"@],
        DataFile::Trainer => seq!["training_tools"@, "online_train.py"@],
    }
}

/// Where something is kept, as the names below the folder of memory and training data.
pub fn data_file(file: DataFile) -> (r: Vec<String>)
    ensures
        texts(r@) == data_names(file),
{
    let list: Vec<&'static str> = match file {
        DataFile::History => vec!["memory", "conversations", "history.jsonl"],
        DataFile::CurrentMemory => vec!["memory", "projects", "current.md"],
        DataFile::Traffic => vec!["memory", "agent_traffic", "traffic.log"],
        DataFile::Runs { failed } => if failed {
            vec!["training", "errors", "runs.jsonl"]
        } else {
            vec!["training", "success", "runs.jsonl"]
        },
        DataFile::AllRuns => vec!["training", "raw", "all_runs.jsonl"],
        DataFile::FineTuning => vec!["training", "fine_tuning", "chat_messages.jsonl"],
        DataFile::Adapter => vec!["training", "online_adapter"],
        DataFile::TrainingStatus => vec!["training", "short_training_status.log"],
        DataFile::TrainingReadme => vec!["training", "README_TRAINING_DATA.txt"],
        DataFile::Trainer => vec!["training_tools", "online_train.py"],
    };
    assert(str_texts(list@) =~= data_names(file));
    names(&list)
}

/// What is kept lies in the folders that are made for it; the program that trains comes with the
/// installation.
pub proof fn what_is_kept_lies_in_its_folders(file: DataFile)
    requires
        !(file is Trainer),
    ensures
        data_folders().contains(data_names(file).drop_last()),
{
    let inside = data_names(file).drop_last();
    let i: int = match file {
        DataFile::History => 1,
        DataFile::CurrentMemory => 4,
        DataFile::Traffic => 2,
        DataFile::Runs { failed: true } => 7,
        DataFile::Runs { failed: false } => 8,
        DataFile::AllRuns => 6,
        DataFile::FineTuning => 9,
        _ => 5,
    };
    assert(data_folders()[i] =~= inside);
}

/// What is remembered of a run is read again by the next one.
pub proof fn what_is_remembered_is_read_again()
    ensures
        data_names(DataFile::CurrentMemory) == seq!["memory"@] + memory_files()[2],
{
}

/// Runs that failed and runs that did not are kept apart.
pub proof fn failed_runs_are_kept_apart()
    ensures
        data_names(DataFile::Runs { failed: true }) != data_names(DataFile::Runs { failed: false }),
        data_names(DataFile::Runs { failed: true }).contains("errors"@),
        data_names(DataFile::Runs { failed: false }).contains("success"@),
{
    reveal_strlit("errors");
    reveal_strlit("success");
    assert(data_names(DataFile::Runs { failed: true })[1] == "errors"@);
    assert(data_names(DataFile::Runs { failed: false })[1] == "success"@);
    assert(data_names(DataFile::Runs { failed: true })[1].len() == 6);
    assert(data_names(DataFile::Runs { failed: false })[1].len() == 7);
}

/// The text that explains the training data to the user.
pub const TRAINING_README: &'static str =
    "Local AI training and memory data\n\n\
     raw/all_runs.jsonl: every completed run with final answer and logs.\n\
     errors/runs.jsonl: failed runs with chat history and diagnostic logs for later correction.\n\
     success/runs.jsonl: runs without failed/error markers.\n\
     fine_tuning/chat_messages.jsonl: successful chats in role/content message format.\n\
     The event-driven training collector writes after every completed chat run.\n\
     Failed answers are intentionally excluded from automatic fine-tuning data.\n\
     fine_tuning/: place curated training files here before actual fine-tuning.\n\
     datasets/: exported or cleaned datasets can be written here.\n\
     memory/: persistent memory files read by the coordinator.\n";

/// What the model is made of that is made here.
pub const OPENCLAW_MODELFILE: &'static str =
    "FROM gpt-oss:20b\n\
     SYSTEM You are OpenClaw, a local orchestration and coding agent. Split complex work into safe steps, produce precise implementation plans, and return only the output format requested by the caller.\n\
     PARAMETER temperature 0.2\n";

} // verus!
