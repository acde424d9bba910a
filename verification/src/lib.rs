//! The decisions of a local coding assistant: what a request means, what the models are asked,
//! which of their file actions are safe, and what is kept of every run. Everything that touches
//! files, processes, the network or the screen is left to the program around the library, which
//! carries out the steps that the runs in here ask for and tells them what came of each.

// Texts and numbers.
pub mod chars;
pub mod numbers;
pub mod order;
pub mod outside;
pub mod text;

// What the user wants.
pub mod content;
pub mod intent;
pub mod request;
pub mod task;

// The model server and the models.
pub mod envelope;
pub mod http;
pub mod models;
pub mod prompts;

// Changes to files.
pub mod actions;
pub mod apply;
pub mod packaging;
pub mod paths;

// A run from the request to the answer.
pub mod answer;
pub mod chain;
pub mod coders;
pub mod coordinator;
pub mod snapshot;

// The program around the runs.
pub mod graph;
pub mod layout;
pub mod records;
pub mod session;
pub mod state;
pub mod waiting;
