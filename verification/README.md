# Local Coding AI

A coding assistant that works on a project folder with models of a local Ollama server. The
decisions are a library whose behaviour is stated in contracts and proved with Verus; the window,
the file system, the processes and the network are a thin program around it.

## Layout

- `src/` is the library.
  - `chars`, `numbers`, `order`, `text`: texts and numbers, with `outside` holding what is taken
    from the standard library and from `serde_json` as given.
  - `intent`, `request`, `content`, `task`: what a message of the user means.
  - `http`, `models`, `envelope`, `prompts`: talking to the model server, reading what models say.
  - `paths`, `actions`, `apply`, `packaging`: file actions, from the check of a path to the last
    write.
  - `coordinator`, `coders`, `chain`, `snapshot`, `answer`: a run from the request to the answer.
  - `graph`, `session`, `state`, `records`, `layout`, `waiting`: what the window shows, what is
    kept, and how long other programs are waited for.
- `app/` is the program: it carries out the steps that the library asks for.
- `tests/` runs the library on concrete values, with a file system in memory where files matter.

## Runs

A run (`ChainRun`, `CoderRun`, `EmergencyRun`, `ApplyRun`, `PackRun`) is a state machine. `advance`
takes in what came of the last step and returns the next one. The contract of `advance` gives the
next state and the next step exactly, as a function of the state and the event, and each run comes
with laws about all of its steps: that it ends, that its log only grows, that no file is touched
before its path was let through.

## Promises that are proved

- A file is touched only behind the check of its path: no `..` stands between the slashes of its
  text, none of its components leads up, and its folder lies inside the chosen project folder. What
  the components are, and which folder that is, comes from the program around the library, which
  asks the file system.
- A text is replaced only where it stands exactly once.
- Over a whole run, whatever the models answer, actions are applied only if they are exactly those
  of an answer in which the check found no fault, and none are where applying is switched off. A
  request for a single file is carried out without any model.
- Over a whole run, nothing of a Python script is written, run or built before its path was let
  through and it was seen to be a Python file, and success is reported only of a program that was
  copied to its place.
- A run that failed never becomes a training example.
- Only models that are missing are downloaded.
- The answer to a run that was given up is ignored.
- Every other program that is waited for is stopped at its time limit.
- What the model server sends in chunks is put together again as it was.
