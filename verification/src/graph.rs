//! The graph of agents: its blocks, its connections, and its text.

use vstd::prelude::*;
use crate::models::{
    DEEPSEEK_CODER_MODEL, DEFAULT_AGENT_MODEL, LOCAL_GPT_ROUTER_MODEL, QWEN_CODER_MODEL,
};
use crate::numbers::{decimal, to_decimal};
use crate::text::{
    cat2, cat5, contains, ends, find, first_at, holds, lemma_found_first, lemma_trim_line_feeds,
    occurs_at, skip_chars, take_chars, text_is, trim, trimmed,
};

verus! {

// ---------------------------------------------------------------------------------------------
// Types
// ---------------------------------------------------------------------------------------------

/// What a block stands for.
#[derive(Clone, Copy, Debug, PartialEq, Eq, Structural)]
pub enum AgentBlockKind {
    Coordinator,
    Manager,
    CodingAgent,
    PlanningAgent,
    ReviewAgent,
    Task,
    Tool,
}

/// A block of the graph. Its place and its size are held as the bits of single-precision numbers.
#[derive(Debug)]
pub struct AgentBlock {
    pub id: u64,
    pub title: String,
    pub kind: AgentBlockKind,
    pub model: String,
    pub prompt: String,
    pub task: String,
    pub x: u32,
    pub y: u32,
    pub w: u32,
    pub h: u32,
}

/// What an [`AgentBlock`] says.
pub struct Block {
    pub id: u64,
    pub title: Seq<char>,
    pub kind: AgentBlockKind,
    pub model: Seq<char>,
    pub prompt: Seq<char>,
    pub task: Seq<char>,
    pub x: u32,
    pub y: u32,
    pub w: u32,
    pub h: u32,
}

impl View for AgentBlock {
    type V = Block;

    open spec fn view(&self) -> Block {
        Block {
            id: self.id,
            title: self.title@,
            kind: self.kind,
            model: self.model@,
            prompt: self.prompt@,
            task: self.task@,
            x: self.x,
            y: self.y,
            w: self.w,
            h: self.h,
        }
    }
}

/// A connection from one block to another.
#[derive(Debug)]
pub struct AgentConnection {
    pub from: u64,
    pub to: u64,
    pub label: String,
}

/// What an [`AgentConnection`] says.
pub struct Link {
    pub from: u64,
    pub to: u64,
    pub label: Seq<char>,
}

impl View for AgentConnection {
    type V = Link;

    open spec fn view(&self) -> Link {
        Link { from: self.from, to: self.to, label: self.label@ }
    }
}

/// The graph of agents.
#[derive(Debug)]
pub struct AgentGraph {
    pub blocks: Vec<AgentBlock>,
    pub connections: Vec<AgentConnection>,
    pub next_id: u64,
}

/// What an [`AgentGraph`] says.
pub struct Graph {
    pub blocks: Seq<Block>,
    pub links: Seq<Link>,
    pub next_id: u64,
}

/// What a list of blocks says.
pub open spec fn blocks_view(v: Seq<AgentBlock>) -> Seq<Block> {
    v.map_values(|b: AgentBlock| b@)
}

/// What a list of connections says.
pub open spec fn links_view(v: Seq<AgentConnection>) -> Seq<Link> {
    v.map_values(|c: AgentConnection| c@)
}

impl View for AgentGraph {
    type V = Graph;

    open spec fn view(&self) -> Graph {
        Graph {
            blocks: blocks_view(self.blocks@),
            links: links_view(self.connections@),
            next_id: self.next_id,
        }
    }
}

impl AgentBlock {
    /// The same block once more.
    pub fn copy(&self) -> (r: AgentBlock)
        ensures
            r@ == self@,
    {
        AgentBlock {
            id: self.id,
            title: self.title.as_str().to_owned(),
            kind: self.kind,
            model: self.model.as_str().to_owned(),
            prompt: self.prompt.as_str().to_owned(),
            task: self.task.as_str().to_owned(),
            x: self.x,
            y: self.y,
            w: self.w,
            h: self.h,
        }
    }
}

impl AgentConnection {
    /// The same connection once more.
    pub fn copy(&self) -> (r: AgentConnection)
        ensures
            r@ == self@,
    {
        AgentConnection { from: self.from, to: self.to, label: self.label.as_str().to_owned() }
    }
}

impl AgentGraph {
    /// The same graph once more.
    pub fn copy(&self) -> (r: AgentGraph)
        ensures
            r@ == self@,
    {
        let n: usize = self.blocks.len();
        let mut blocks: Vec<AgentBlock> = Vec::new();
        let mut i: usize = 0;
        while i < n
            invariant
                i <= n == self.blocks@.len(),
                blocks@.len() == i,
                forall|k: int| 0 <= k < i ==> (#[trigger] blocks@[k])@ == self.blocks@[k]@,
            decreases n - i,
        {
            blocks.push(self.blocks[i].copy());
            i += 1;
        }
        let m: usize = self.connections.len();
        let mut connections: Vec<AgentConnection> = Vec::new();
        let mut j: usize = 0;
        while j < m
            invariant
                j <= m == self.connections@.len(),
                connections@.len() == j,
                forall|k: int| 0 <= k < j ==> (#[trigger] connections@[k])@ == self.connections@[k]@,
            decreases m - j,
        {
            connections.push(self.connections[j].copy());
            j += 1;
        }
        assert(blocks_view(blocks@) =~= blocks_view(self.blocks@));
        assert(links_view(connections@) =~= links_view(self.connections@));
        AgentGraph { blocks, connections, next_id: self.next_id }
    }
}

impl AgentBlockKind {
    /// How the kind is called in the window.
    pub open spec fn name(self) -> Seq<char> {
        match self {
            AgentBlockKind::Coordinator => "Coordinator"@,
            AgentBlockKind::Manager => "Verwaltungsagent"@,
            AgentBlockKind::CodingAgent => "Coding-Agent"@,
            AgentBlockKind::PlanningAgent => "Planungs-Agent"@,
            AgentBlockKind::ReviewAgent => "Review-Agent"@,
            AgentBlockKind::Task => "Task"@,
            AgentBlockKind::Tool => "Tool"@,
        }
    }

    /// How the kind is called in the window.
    pub fn label(&self) -> (r: &'static str)
        ensures
            r@ == self.name(),
    {
        match self {
            AgentBlockKind::Coordinator => "Coordinator",
            AgentBlockKind::Manager => "Verwaltungsagent",
            AgentBlockKind::CodingAgent => "Coding-Agent",
            AgentBlockKind::PlanningAgent => "Planungs-Agent",
            AgentBlockKind::ReviewAgent => "Review-Agent",
            AgentBlockKind::Task => "Task",
            AgentBlockKind::Tool => "Tool",
        }
    }

    /// All kinds, in the order in which the window offers them.
    pub fn all() -> (r: Vec<AgentBlockKind>)
        ensures
            r@ == seq![
                AgentBlockKind::Coordinator,
                AgentBlockKind::Manager,
                AgentBlockKind::CodingAgent,
                AgentBlockKind::PlanningAgent,
                AgentBlockKind::ReviewAgent,
                AgentBlockKind::Task,
                AgentBlockKind::Tool,
            ],
            forall|k: AgentBlockKind| r@.contains(k),
    {
        let mut all: Vec<AgentBlockKind> = Vec::new();
        all.push(AgentBlockKind::Coordinator);
        all.push(AgentBlockKind::Manager);
        all.push(AgentBlockKind::CodingAgent);
        all.push(AgentBlockKind::PlanningAgent);
        all.push(AgentBlockKind::ReviewAgent);
        all.push(AgentBlockKind::Task);
        all.push(AgentBlockKind::Tool);
        assert forall|k: AgentBlockKind| all@.contains(k) by {
            let i = match k {
                AgentBlockKind::Coordinator => 0int,
                AgentBlockKind::Manager => 1,
                AgentBlockKind::CodingAgent => 2,
                AgentBlockKind::PlanningAgent => 3,
                AgentBlockKind::ReviewAgent => 4,
                AgentBlockKind::Task => 5,
                AgentBlockKind::Tool => 6,
            };
            assert(all@[i] == k);
        }
        all
    }
}

/// The red, green and blue of a block that is not selected.
pub fn block_color(kind: AgentBlockKind) -> (r: (u8, u8, u8))
    ensures
        r == match kind {
            AgentBlockKind::Coordinator => (64u8, 92u8, 150u8),
            AgentBlockKind::Manager => (78u8, 112u8, 128u8),
            AgentBlockKind::CodingAgent => (84u8, 120u8, 88u8),
            AgentBlockKind::PlanningAgent => (125u8, 102u8, 68u8),
            AgentBlockKind::ReviewAgent => (120u8, 82u8, 96u8),
            AgentBlockKind::Task => (92u8, 92u8, 105u8),
            AgentBlockKind::Tool => (92u8, 78u8, 120u8),
        },
{
    match kind {
        AgentBlockKind::Coordinator => (64, 92, 150),
        AgentBlockKind::Manager => (78, 112, 128),
        AgentBlockKind::CodingAgent => (84, 120, 88),
        AgentBlockKind::PlanningAgent => (125, 102, 68),
        AgentBlockKind::ReviewAgent => (120, 82, 96),
        AgentBlockKind::Task => (92, 92, 105),
        AgentBlockKind::Tool => (92, 78, 120),
    }
}

// ---------------------------------------------------------------------------------------------
// Lengths
// ---------------------------------------------------------------------------------------------

/// The bits of a whole length, from 64 up to 2047, as a single-precision number: the exponent,
/// and the part of the length above the power of two below it.
pub open spec fn px_bits(n: nat) -> u32 {
    if n < 128 {
        (133 * 0x80_0000 + (n - 64) * 0x2_0000) as u32
    } else if n < 256 {
        (134 * 0x80_0000 + (n - 128) * 0x1_0000) as u32
    } else if n < 512 {
        (135 * 0x80_0000 + (n - 256) * 0x8000) as u32
    } else if n < 1024 {
        (136 * 0x80_0000 + (n - 512) * 0x4000) as u32
    } else {
        (137 * 0x80_0000 + (n - 1024) * 0x2000) as u32
    }
}

/// The bits of a length are those of the number: the exponent and the digits behind the leading one
/// give the length again.
pub proof fn lengths_are_what_they_stand_for(n: nat)
    requires
        64 <= n < 2048,
    ensures
        ({
            let exponent = px_bits(n) / 0x80_0000;
            let digits = 0x80_0000 + px_bits(n) % 0x80_0000;
            &&& exponent == 133 ==> digits == n * 0x2_0000
            &&& exponent == 134 ==> digits == n * 0x1_0000
            &&& exponent == 135 ==> digits == n * 0x8000
            &&& exponent == 136 ==> digits == n * 0x4000
            &&& exponent == 137 ==> digits == n * 0x2000
            &&& 133 <= exponent <= 137
        }),
        above_forty(px_bits(n)),
{
}

/// The bits of a whole length as a single-precision number.
pub fn px(n: u32) -> (r: u32)
    requires
        64 <= n < 2048,
    ensures
        r == px_bits(n as nat),
{
    if n < 128 {
        133 * 0x80_0000 + (n - 64) * 0x2_0000
    } else if n < 256 {
        134 * 0x80_0000 + (n - 128) * 0x1_0000
    } else if n < 512 {
        135 * 0x80_0000 + (n - 256) * 0x8000
    } else if n < 1024 {
        136 * 0x80_0000 + (n - 512) * 0x4000
    } else {
        137 * 0x80_0000 + (n - 1024) * 0x2000
    }
}

/// The bits are those of a number above 40: positive single-precision numbers are ordered as
/// their bits are, up to infinity.
pub open spec fn above_forty(bits: u32) -> bool {
    0x4220_0000 < bits <= 0x7f80_0000
}

// ---------------------------------------------------------------------------------------------
// The graph of a new installation, and new blocks
// ---------------------------------------------------------------------------------------------

/// The graph that a new installation begins with.
pub open spec fn starting_graph() -> Graph {
    Graph {
        blocks: seq![
            Block {
                id: 1,
                title: "Coordinator"@,
                kind: AgentBlockKind::Coordinator,
                model: DEFAULT_AGENT_MODEL@,
                prompt: "Talk to the user, split requests, and delegate to managers or agents."@,
                task: "Steuert den gesamten Auftrag."@,
                x: px_bits(380),
                y: px_bits(210),
                w: px_bits(210),
                h: px_bits(112),
            },
            Block {
                id: 2,
                title: "Unterverwalter Code"@,
                kind: AgentBlockKind::Manager,
                model: DEFAULT_AGENT_MODEL@,
                prompt: "Route coding tasks to specialized coding agents and compare their proposals."@,
                task: "Coordinates coding agents."@,
                x: px_bits(640),
                y: px_bits(205),
                w: px_bits(220),
                h: px_bits(118),
            },
            Block {
                id: 3,
                title: "CodeLlama Coder"@,
                kind: AgentBlockKind::CodingAgent,
                model: DEFAULT_AGENT_MODEL@,
                prompt: "Create safe file actions and respect relative paths."@,
                task: "Haupt-Coding-Agent."@,
                x: px_bits(900),
                y: px_bits(110),
                w: px_bits(210),
                h: px_bits(112),
            },
            Block {
                id: 4,
                title: "Qwen Coder"@,
                kind: AgentBlockKind::CodingAgent,
                model: QWEN_CODER_MODEL@,
                prompt: "Create alternative coding proposals and pragmatically check small patches."@,
                task: "Alternative coding answer."@,
                x: px_bits(900),
                y: px_bits(300),
                w: px_bits(210),
                h: px_bits(112),
            },
            Block {
                id: 8,
                title: "DeepSeek Coder"@,
                kind: AgentBlockKind::CodingAgent,
                model: DEEPSEEK_CODER_MODEL@,
                prompt: "Create another coding solution and pay attention to runnable programs."@,
                task: "Third coding answer."@,
                x: px_bits(1140),
                y: px_bits(205),
                w: px_bits(220),
                h: px_bits(112),
            },
            Block {
                id: 9,
                title: "GPT Coding Agent"@,
                kind: AgentBlockKind::CodingAgent,
                model: LOCAL_GPT_ROUTER_MODEL@,
                prompt: "Create precise code changes and executable command solutions as safe file actions."@,
                task: "GPT coding solution and command expertise."@,
                x: px_bits(1140),
                y: px_bits(335),
                w: px_bits(220),
                h: px_bits(112),
            },
            Block {
                id: 5,
                title: "Planer"@,
                kind: AgentBlockKind::PlanningAgent,
                model: DEFAULT_AGENT_MODEL@,
                prompt: "Plane robuste Umsetzungsschritte und Risiken."@,
                task: "Planung und Risiko."@,
                x: px_bits(120),
                y: px_bits(120),
                w: px_bits(200),
                h: px_bits(108),
            },
            Block {
                id: 6,
                title: "Task"@,
                kind: AgentBlockKind::Task,
                model: ""@,
                prompt: "User request."@,
                task: "Aktuelle Task startet hier."@,
                x: px_bits(125),
                y: px_bits(330),
                w: px_bits(200),
                h: px_bits(105),
            },
            Block {
                id: 7,
                title: "Review-Agent"@,
                kind: AgentBlockKind::ReviewAgent,
                model: DEFAULT_AGENT_MODEL@,
                prompt: "Check result, errors, and final answer."@,
                task: "Final review."@,
                x: px_bits(640),
                y: px_bits(410),
                w: px_bits(210),
                h: px_bits(112),
            },
        ],
        links: seq![
            Link { from: 6, to: 1, label: "Auftrag"@ },
            Link { from: 1, to: 5, label: "Planung"@ },
            Link { from: 1, to: 2, label: "delegiert"@ },
            Link { from: 2, to: 3, label: "Coding"@ },
            Link { from: 2, to: 4, label: "Alternative"@ },
            Link { from: 2, to: 8, label: "DeepSeek"@ },
            Link { from: 2, to: 9, label: "GPT Coding"@ },
            Link { from: 2, to: 7, label: "Review"@ },
            Link { from: 7, to: 1, label: "Ergebnis"@ },
        ],
        next_id: 10,
    }
}

/// The graph that a new installation begins with.
pub fn default_agent_graph() -> (r: AgentGraph)
    ensures
        r@ == starting_graph(),
{
    let mut blocks: Vec<AgentBlock> = Vec::new();
    blocks.push(
        AgentBlock {
            id: 1,
            title: "Coordinator".to_owned(),
            kind: AgentBlockKind::Coordinator,
            model: DEFAULT_AGENT_MODEL.to_owned(),
            prompt: "Talk to the user, split requests, and delegate to managers or agents.".to_owned(),
            task: "Steuert den gesamten Auftrag.".to_owned(),
            x: px(380),
            y: px(210),
            w: px(210),
            h: px(112),
        },
    );
    blocks.push(
        AgentBlock {
            id: 2,
            title: "Unterverwalter Code".to_owned(),
            kind: AgentBlockKind::Manager,
            model: DEFAULT_AGENT_MODEL.to_owned(),
            prompt: "Route coding tasks to specialized coding agents and compare their proposals.".to_owned(),
            task: "Coordinates coding agents.".to_owned(),
            x: px(640),
            y: px(205),
            w: px(220),
            h: px(118),
        },
    );
    blocks.push(
        AgentBlock {
            id: 3,
            title: "CodeLlama Coder".to_owned(),
            kind: AgentBlockKind::CodingAgent,
            model: DEFAULT_AGENT_MODEL.to_owned(),
            prompt: "Create safe file actions and respect relative paths.".to_owned(),
            task: "Haupt-Coding-Agent.".to_owned(),
            x: px(900),
            y: px(110),
            w: px(210),
            h: px(112),
        },
    );
    blocks.push(
        AgentBlock {
            id: 4,
            title: "Qwen Coder".to_owned(),
            kind: AgentBlockKind::CodingAgent,
            model: QWEN_CODER_MODEL.to_owned(),
            prompt: "Create alternative coding proposals and pragmatically check small patches.".to_owned(),
            task: "Alternative coding answer.".to_owned(),
            x: px(900),
            y: px(300),
            w: px(210),
            h: px(112),
        },
    );
    blocks.push(
        AgentBlock {
            id: 8,
            title: "DeepSeek Coder".to_owned(),
            kind: AgentBlockKind::CodingAgent,
            model: DEEPSEEK_CODER_MODEL.to_owned(),
            prompt: "Create another coding solution and pay attention to runnable programs.".to_owned(),
            task: "Third coding answer.".to_owned(),
            x: px(1140),
            y: px(205),
            w: px(220),
            h: px(112),
        },
    );
    blocks.push(
        AgentBlock {
            id: 9,
            title: "GPT Coding Agent".to_owned(),
            kind: AgentBlockKind::CodingAgent,
            model: LOCAL_GPT_ROUTER_MODEL.to_owned(),
            prompt: "Create precise code changes and executable command solutions as safe file actions.".to_owned(),
            task: "GPT coding solution and command expertise.".to_owned(),
            x: px(1140),
            y: px(335),
            w: px(220),
            h: px(112),
        },
    );
    blocks.push(
        AgentBlock {
            id: 5,
            title: "Planer".to_owned(),
            kind: AgentBlockKind::PlanningAgent,
            model: DEFAULT_AGENT_MODEL.to_owned(),
            prompt: "Plane robuste Umsetzungsschritte und Risiken.".to_owned(),
            task: "Planung und Risiko.".to_owned(),
            x: px(120),
            y: px(120),
            w: px(200),
            h: px(108),
        },
    );
    blocks.push(
        AgentBlock {
            id: 6,
            title: "Task".to_owned(),
            kind: AgentBlockKind::Task,
            model: "".to_owned(),
            prompt: "User request.".to_owned(),
            task: "Aktuelle Task startet hier.".to_owned(),
            x: px(125),
            y: px(330),
            w: px(200),
            h: px(105),
        },
    );
    blocks.push(
        AgentBlock {
            id: 7,
            title: "Review-Agent".to_owned(),
            kind: AgentBlockKind::ReviewAgent,
            model: DEFAULT_AGENT_MODEL.to_owned(),
            prompt: "Check result, errors, and final answer.".to_owned(),
            task: "Final review.".to_owned(),
            x: px(640),
            y: px(410),
            w: px(210),
            h: px(112),
        },
    );
    let mut connections: Vec<AgentConnection> = Vec::new();
    connections.push(AgentConnection { from: 6, to: 1, label: "Auftrag".to_owned() });
    connections.push(AgentConnection { from: 1, to: 5, label: "Planung".to_owned() });
    connections.push(AgentConnection { from: 1, to: 2, label: "delegiert".to_owned() });
    connections.push(AgentConnection { from: 2, to: 3, label: "Coding".to_owned() });
    connections.push(AgentConnection { from: 2, to: 4, label: "Alternative".to_owned() });
    connections.push(AgentConnection { from: 2, to: 8, label: "DeepSeek".to_owned() });
    connections.push(AgentConnection { from: 2, to: 9, label: "GPT Coding".to_owned() });
    connections.push(AgentConnection { from: 2, to: 7, label: "Review".to_owned() });
    connections.push(AgentConnection { from: 7, to: 1, label: "Ergebnis".to_owned() });
    assert(blocks_view(blocks@) =~= starting_graph().blocks);
    assert(links_view(connections@) =~= starting_graph().links);
    AgentGraph { blocks, connections, next_id: 10 }
}

/// Title, model, prompt, task, width and height of a new block.
pub open spec fn new_block(kind: AgentBlockKind, id: u64, x: u32, y: u32) -> Block {
    let (title, model, prompt, task, w, h) = match kind {
        AgentBlockKind::Coordinator => (
            "Coordinator "@,
            DEFAULT_AGENT_MODEL@,
            "Talk to the user and delegate work."@,
            "Verwaltet den Auftrag."@,
            220nat,
            118nat,
        ),
        AgentBlockKind::Manager => (
            "Verwalter "@,
            DEFAULT_AGENT_MODEL@,
            "Coordinate a subgroup of agents."@,
            "Unterverwaltung."@,
            220nat,
            118nat,
        ),
        AgentBlockKind::CodingAgent => (
            "Coder "@,
            if id % 3 == 0 {
                DEEPSEEK_CODER_MODEL@
            } else if id % 3 == 1 {
                DEFAULT_AGENT_MODEL@
            } else {
                QWEN_CODER_MODEL@
            },
            "Create safe file actions with relative paths."@,
            "Coding-Task."@,
            210nat,
            112nat,
        ),
        AgentBlockKind::PlanningAgent => (
            "Planer "@,
            DEFAULT_AGENT_MODEL@,
            "Plane Umsetzung, Risiken und Tests."@,
            "Planung."@,
            205nat,
            108nat,
        ),
        AgentBlockKind::ReviewAgent => (
            "Review-Agent "@,
            DEFAULT_AGENT_MODEL@,
            "Check changes and summarize the result."@,
            "Review."@,
            205nat,
            108nat,
        ),
        AgentBlockKind::Task => (
            "Task "@,
            ""@,
            "tasksbeschreibung."@,
            "Neue Task."@,
            200nat,
            105nat,
        ),
        AgentBlockKind::Tool => (
            "Tool "@,
            ""@,
            "Local tool or file operation."@,
            "Tool."@,
            200nat,
            105nat,
        ),
    };
    Block {
        id,
        title: title + decimal(id as nat),
        kind,
        model,
        prompt,
        task,
        x,
        y,
        w: px_bits(w),
        h: px_bits(h),
    }
}

/// A new block at the given place.
pub fn default_block_fields(kind: AgentBlockKind, id: u64, x: u32, y: u32) -> (r: AgentBlock)
    ensures
        r@ == new_block(kind, id, x, y),
{
    let (title, model, prompt, task, w, h): (
        &'static str,
        &'static str,
        &'static str,
        &'static str,
        u32,
        u32,
    ) = match kind {
        AgentBlockKind::Coordinator => (
            "Coordinator ",
            DEFAULT_AGENT_MODEL,
            "Talk to the user and delegate work.",
            "Verwaltet den Auftrag.",
            220,
            118,
        ),
        AgentBlockKind::Manager => (
            "Verwalter ",
            DEFAULT_AGENT_MODEL,
            "Coordinate a subgroup of agents.",
            "Unterverwaltung.",
            220,
            118,
        ),
        AgentBlockKind::CodingAgent => (
            "Coder ",
            if id % 3 == 0 {
                DEEPSEEK_CODER_MODEL
            } else if id % 3 == 1 {
                DEFAULT_AGENT_MODEL
            } else {
                QWEN_CODER_MODEL
            },
            "Create safe file actions with relative paths.",
            "Coding-Task.",
            210,
            112,
        ),
        AgentBlockKind::PlanningAgent => (
            "Planer ",
            DEFAULT_AGENT_MODEL,
            "Plane Umsetzung, Risiken und Tests.",
            "Planung.",
            205,
            108,
        ),
        AgentBlockKind::ReviewAgent => (
            "Review-Agent ",
            DEFAULT_AGENT_MODEL,
            "Check changes and summarize the result.",
            "Review.",
            205,
            108,
        ),
        AgentBlockKind::Task => ("Task ", "", "tasksbeschreibung.", "Neue Task.", 200, 105),
        AgentBlockKind::Tool => ("Tool ", "", "Local tool or file operation.", "Tool.", 200, 105),
    };
    AgentBlock {
        id,
        title: cat2(title, to_decimal(id as u128).as_str()),
        kind,
        model: model.to_owned(),
        prompt: prompt.to_owned(),
        task: task.to_owned(),
        x,
        y,
        w: px(w),
        h: px(h),
    }
}

// ---------------------------------------------------------------------------------------------
// Setting a graph in order
// ---------------------------------------------------------------------------------------------

/// A block with the given number.
pub open spec fn has_id(blocks: Seq<Block>, id: u64) -> bool {
    exists|i: int| 0 <= i < blocks.len() && (#[trigger] blocks[i]).id == id
}

/// A block with the given number and title.
pub open spec fn has_block(blocks: Seq<Block>, id: u64, title: Seq<char>) -> bool {
    exists|i: int|
        0 <= i < blocks.len() && (#[trigger] blocks[i]).id == id && blocks[i].title == title
}

/// A connection between the given blocks.
pub open spec fn has_link(links: Seq<Link>, from: u64, to: u64) -> bool {
    exists|i: int| 0 <= i < links.len() && (#[trigger] links[i]).from == from && links[i].to == to
}

/// The largest number of a block, or zero.
pub open spec fn top_id(blocks: Seq<Block>) -> u64
    decreases blocks.len(),
{
    if blocks.len() == 0 {
        0
    } else {
        let rest = top_id(blocks.drop_last());
        if blocks.last().id > rest {
            blocks.last().id
        } else {
            rest
        }
    }
}

/// A block that is large enough to be seen.
pub open spec fn visible_block(b: Block) -> bool {
    above_forty(b.w) && above_forty(b.h)
}

/// A block with its model brought up to date.
pub open spec fn updated(b: Block) -> Block {
    if b.model == "qwen2.5-coder:0.5b"@ {
        Block { model: QWEN_CODER_MODEL@, ..b }
    } else {
        b
    }
}

/// A block of the DeepSeek coder.
pub open spec fn deepseek(b: Block) -> bool {
    b.model == DEEPSEEK_CODER_MODEL@ || holds(b.title, "DeepSeek"@)
}

/// A block of the large coder.
pub open spec fn large_coder(b: Block) -> bool {
    b.kind == AgentBlockKind::CodingAgent && (b.title == "GPT Coding Agent"@ || b.model
        == LOCAL_GPT_ROUTER_MODEL@)
}

/// One of the blocks is of the DeepSeek coder.
pub open spec fn any_deepseek(blocks: Seq<Block>) -> bool {
    exists|i: int| 0 <= i < blocks.len() && deepseek(#[trigger] blocks[i])
}

/// One of the blocks is of the large coder.
pub open spec fn any_large_coder(blocks: Seq<Block>) -> bool {
    exists|i: int| 0 <= i < blocks.len() && large_coder(#[trigger] blocks[i])
}

/// The blocks of the graph that installations once began with.
pub open spec fn old_start(blocks: Seq<Block>) -> bool {
    has_block(blocks, 2, "Unterverwalter Code"@) && has_block(blocks, 3, "CodeLlama Coder"@)
        && has_block(blocks, 4, "Qwen Coder"@)
}

/// The block of the DeepSeek coder.
pub open spec fn deepseek_block(id: u64) -> Block {
    Block {
        id,
        title: "DeepSeek Coder"@,
        kind: AgentBlockKind::CodingAgent,
        model: DEEPSEEK_CODER_MODEL@,
        prompt: "Create another coding solution and pay attention to runnable programs."@,
        task: "Third coding answer."@,
        x: px_bits(1140),
        y: px_bits(205),
        w: px_bits(220),
        h: px_bits(112),
    }
}

/// The block of the large coder.
pub open spec fn large_coder_block(id: u64) -> Block {
    Block {
        id,
        title: "GPT Coding Agent"@,
        kind: AgentBlockKind::CodingAgent,
        model: LOCAL_GPT_ROUTER_MODEL@,
        prompt: "Create precise code changes and executable command solutions as safe file actions."@,
        task: "GPT coding solution and command expertise."@,
        x: px_bits(1140),
        y: px_bits(335),
        w: px_bits(220),
        h: px_bits(112),
    }
}

/// The larger of two numbers.
pub open spec fn larger(a: u64, b: u64) -> u64 {
    if a >= b {
        a
    } else {
        b
    }
}

impl Graph {
    /// Only the blocks that can be seen, with their models brought up to date.
    pub open spec fn current(self) -> Graph {
        Graph {
            blocks: self.blocks.filter(|b: Block| visible_block(b)).map_values(
                |b: Block| updated(b),
            ),
            ..self
        }
    }

    /// With the DeepSeek coder, where the graph is an old one that lacks it.
    pub open spec fn with_deepseek(self) -> Graph {
        if old_start(self.blocks) && !any_deepseek(self.blocks) {
            let id = larger(self.next_id, 8);
            Graph {
                blocks: self.blocks.push(deepseek_block(id)),
                links: if has_link(self.links, 2, id) {
                    self.links
                } else {
                    self.links.push(Link { from: 2, to: id, label: "DeepSeek"@ })
                },
                ..self
            }
        } else {
            self
        }
    }

    /// With the large coder, where the graph is an old one that lacks it.
    pub open spec fn with_large_coder(self) -> Graph {
        if old_start(self.blocks) && !any_large_coder(self.blocks) {
            let top = top_id(self.blocks);
            let id = if top == u64::MAX {
                top
            } else {
                (top + 1) as u64
            };
            Graph {
                blocks: self.blocks.push(large_coder_block(id)),
                links: self.links.push(Link { from: 2, to: id, label: "GPT Coding"@ }),
                ..self
            }
        } else {
            self
        }
    }

    /// A connection between two different blocks that are there.
    pub open spec fn joins(self, l: Link) -> bool {
        has_id(self.blocks, l.from) && has_id(self.blocks, l.to) && l.from != l.to
    }

    /// Only such connections, and a next number above all that are taken.
    pub open spec fn tidy(self) -> Graph {
        Graph {
            links: self.links.filter(|l: Link| self.joins(l)),
            next_id: larger(larger(self.next_id, (top_id(self.blocks) + 1) as u64), 1),
            ..self
        }
    }

    /// The graph with everything in it that a graph needs, before it is tidied up.
    pub open spec fn completed(self) -> Graph {
        self.current().with_deepseek().with_large_coder()
    }

    /// The graph in order.
    pub open spec fn normal(self) -> Graph {
        self.completed().tidy()
    }

    /// The numbers of the blocks leave room for another one.
    pub open spec fn has_room(self) -> bool {
        top_id(self.completed().blocks) < u64::MAX
    }
}

// ---------------------------------------------------------------------------------------------
// Laws
// ---------------------------------------------------------------------------------------------

/// No number is larger than the largest.
proof fn lemma_top_id(blocks: Seq<Block>)
    ensures
        forall|i: int| 0 <= i < blocks.len() ==> (#[trigger] blocks[i]).id <= top_id(blocks),
    decreases blocks.len(),
{
    if blocks.len() > 0 {
        lemma_top_id(blocks.drop_last());
        assert forall|i: int| 0 <= i < blocks.len() implies (#[trigger] blocks[i]).id <= top_id(
            blocks,
        ) by {
            if i < blocks.len() - 1 {
                assert(blocks.drop_last()[i] == blocks[i]);
            }
        }
    }
}

/// A graph in order has only blocks that can be seen, none of them with the model that is out of
/// date, only connections between two different blocks that are there, and a next number that no
/// block has.
pub proof fn normal_graphs_are_sound(g: Graph)
    requires
        g.has_room(),
    ensures
        forall|i: int| 0 <= i < g.normal().blocks.len() ==> visible_block(
            #[trigger] g.normal().blocks[i],
        ),
        forall|i: int|
            0 <= i < g.normal().blocks.len() ==> (#[trigger] g.normal().blocks[i]).model
                != "qwen2.5-coder:0.5b"@,
        forall|i: int| 0 <= i < g.normal().links.len() ==> g.normal().joins(
            #[trigger] g.normal().links[i],
        ),
        forall|i: int|
            0 <= i < g.normal().blocks.len() ==> (#[trigger] g.normal().blocks[i]).id
                < g.normal().next_id,
        g.normal().next_id >= 1,
        g.normal().next_id >= g.next_id,
{
    let c = g.completed();
    let n = g.normal();
    lemma_completed_visible(g);
    lemma_updated_models(g);
    lemma_top_id(c.blocks);
    let f = |l: Link| c.joins(l);
    assert forall|i: int| 0 <= i < n.links.len() implies n.joins(#[trigger] n.links[i]) by {
        c.links.lemma_filter_pred(f, i);
        assert(c.joins(n.links[i]));
    }
}

/// All blocks of a completed graph can be seen.
proof fn lemma_completed_visible(g: Graph)
    ensures
        forall|i: int| 0 <= i < g.completed().blocks.len() ==> visible_block(
            #[trigger] g.completed().blocks[i],
        ),
{
    let f = |b: Block| visible_block(b);
    let kept = g.blocks.filter(f);
    let cur = g.current();
    assert forall|i: int| 0 <= i < cur.blocks.len() implies visible_block(
        #[trigger] cur.blocks[i],
    ) by {
        g.blocks.lemma_filter_pred(f, i);
        assert(cur.blocks[i] == updated(kept[i]));
    }
    let d = cur.with_deepseek();
    assert forall|i: int| 0 <= i < d.blocks.len() implies visible_block(#[trigger] d.blocks[i]) by {
        if i < cur.blocks.len() {
            assert(d.blocks[i] == cur.blocks[i]);
        }
    }
    let c = d.with_large_coder();
    assert forall|i: int| 0 <= i < c.blocks.len() implies visible_block(#[trigger] c.blocks[i]) by {
        if i < d.blocks.len() {
            assert(c.blocks[i] == d.blocks[i]);
        }
    }
}

/// What is kept of a list that is all to be kept.
proof fn lemma_filter_all<A>(s: Seq<A>, f: spec_fn(A) -> bool)
    requires
        forall|i: int| 0 <= i < s.len() ==> f(#[trigger] s[i]),
    ensures
        s.filter(f) == s,
    decreases s.len(),
{
    reveal(Seq::filter);
    if s.len() > 0 {
        assert forall|i: int| 0 <= i < s.drop_last().len() implies f(#[trigger] s.drop_last()[i]) by {
            assert(s.drop_last()[i] == s[i]);
        }
        lemma_filter_all(s.drop_last(), f);
        assert(f(s[s.len() - 1]));
        assert(s.drop_last().push(s.last()) =~= s);
    } else {
        assert(s.filter(f) =~= s);
    }
}

/// A block that is there stays there when another one is added.
proof fn lemma_push_keeps(blocks: Seq<Block>, b: Block)
    ensures
        old_start(blocks) ==> old_start(blocks.push(b)),
        any_deepseek(blocks) ==> any_deepseek(blocks.push(b)),
        any_large_coder(blocks) ==> any_large_coder(blocks.push(b)),
        deepseek(b) ==> any_deepseek(blocks.push(b)),
        large_coder(b) ==> any_large_coder(blocks.push(b)),
{
    let p = blocks.push(b);
    assert(p[blocks.len() as int] == b);
    assert forall|id: u64, title: Seq<char>| has_block(blocks, id, title) implies has_block(
        p,
        id,
        title,
    ) by {
        let i = choose|i: int|
            0 <= i < blocks.len() && (#[trigger] blocks[i]).id == id && blocks[i].title == title;
        assert(p[i] == blocks[i]);
    }
    if any_deepseek(blocks) {
        let i = choose|i: int| 0 <= i < blocks.len() && deepseek(#[trigger] blocks[i]);
        assert(p[i] == blocks[i]);
    }
    if any_large_coder(blocks) {
        let i = choose|i: int| 0 <= i < blocks.len() && large_coder(#[trigger] blocks[i]);
        assert(p[i] == blocks[i]);
    }
}

/// A graph that was set in order is in order: doing it again changes nothing.
pub proof fn setting_in_order_twice_is_once(g: Graph)
    requires
        g.has_room(),
    ensures
        g.normal().normal() == g.normal(),
        g.normal().has_room(),
{
    let n = g.normal();
    let cur = g.current();
    let d = cur.with_deepseek();
    let c = d.with_large_coder();
    normal_graphs_are_sound(g);
    lemma_updated_models(g);
    lemma_top_id(c.blocks);
    lemma_filter_all(n.blocks, |b: Block| visible_block(b));
    assert(n.current().blocks =~= n.blocks);
    assert(old_start(cur.blocks) || !old_start(d.blocks));
    lemma_push_keeps(cur.blocks, deepseek_block(larger(cur.next_id, 8)));
    let top = top_id(d.blocks);
    let id = if top == u64::MAX {
        top
    } else {
        (top + 1) as u64
    };
    lemma_push_keeps(d.blocks, large_coder_block(id));
    if old_start(cur.blocks) {
        assert(any_deepseek(n.blocks));
        assert(any_large_coder(n.blocks));
    } else {
        assert(d == cur);
        assert(c == d);
    }
    assert(n.current() == n);
    assert(n.with_deepseek() == n);
    assert(n.with_large_coder() == n);
    assert(n.completed() == n);
    lemma_filter_all(n.links, |l: Link| n.joins(l));
    assert(n.tidy().links == n.links);
}

/// No block of a completed graph has the model that is out of date.
proof fn lemma_updated_models(g: Graph)
    ensures
        forall|i: int|
            0 <= i < g.completed().blocks.len() ==> updated(#[trigger] g.completed().blocks[i])
                == g.completed().blocks[i] && g.completed().blocks[i].model
                != "qwen2.5-coder:0.5b"@,
{
    reveal_strlit("qwen2.5-coder:0.5b");
    reveal_strlit("qwen2.5-coder:1.5b");
    reveal_strlit("deepseek-coder:1.3b");
    reveal_strlit("gpt-oss:20b");
    let old = "qwen2.5-coder:0.5b"@;
    assert(QWEN_CODER_MODEL@[14] != old[14]);
    assert(DEEPSEEK_CODER_MODEL@[0] != old[0]);
    assert(LOCAL_GPT_ROUTER_MODEL@[0] != old[0]);
    let kept = g.blocks.filter(|b: Block| visible_block(b));
    let cur = g.current();
    assert forall|i: int| 0 <= i < cur.blocks.len() implies updated(#[trigger] cur.blocks[i])
        == cur.blocks[i] by {
        assert(cur.blocks[i] == updated(kept[i]));
    }
    let d = cur.with_deepseek();
    assert forall|i: int| 0 <= i < d.blocks.len() implies updated(#[trigger] d.blocks[i])
        == d.blocks[i] by {
        if i < cur.blocks.len() {
            assert(d.blocks[i] == cur.blocks[i]);
        }
    }
    let c = d.with_large_coder();
    assert forall|i: int| 0 <= i < c.blocks.len() implies updated(#[trigger] c.blocks[i])
        == c.blocks[i] by {
        if i < d.blocks.len() {
            assert(c.blocks[i] == d.blocks[i]);
        }
    }
}

/// Setting a graph in order loses nothing that can be seen: every block that is large enough stays as
/// it is, but for a model that is out of date, and every connection between two blocks that stay.
pub proof fn what_can_be_seen_is_kept(g: Graph, i: int)
    ensures
        0 <= i < g.blocks.len() && visible_block(g.blocks[i]) && g.blocks[i].model
            != "qwen2.5-coder:0.5b"@ ==> g.normal().blocks.contains(g.blocks[i]),
        0 <= i < g.blocks.len() && visible_block(g.blocks[i]) && g.blocks[i].model
            == "qwen2.5-coder:0.5b"@ ==> g.normal().blocks.contains(
            Block { model: "qwen2.5-coder:1.5b"@, ..g.blocks[i] },
        ),
        0 <= i < g.links.len() && g.normal().joins(g.links[i]) ==> g.normal().links.contains(
            g.links[i],
        ),
        g.normal().blocks.len() <= g.blocks.len() + 2,
{
    let f = |b: Block| visible_block(b);
    let kept = g.blocks.filter(f);
    let cur = g.current();
    let d = cur.with_deepseek();
    let c = d.with_large_coder();
    g.blocks.lemma_filter_len(f);
    if 0 <= i < g.blocks.len() && visible_block(g.blocks[i]) {
        g.blocks.lemma_filter_contains(f, i);
        let k = choose|k: int| 0 <= k < kept.len() && kept[k] == g.blocks[i];
        assert(cur.blocks[k] == updated(g.blocks[i]));
        assert(d.blocks[k] == cur.blocks[k]);
        assert(c.blocks[k] == d.blocks[k]);
        assert(g.normal().blocks[k] == updated(g.blocks[i]));
    }
    if 0 <= i < g.links.len() && g.normal().joins(g.links[i]) {
        let fl = |l: Link| c.joins(l);
        assert(cur.links[i] == g.links[i]);
        assert(d.links[i] == g.links[i]);
        assert(c.links[i] == g.links[i]);
        assert(g.normal().blocks == c.blocks);
        assert(c.joins(c.links[i]));
        c.links.lemma_filter_contains(fl, i);
    }
}

/// A new block is of the kind, at the place and under the number that it was asked for, its title ends
/// with that number, and it is large enough to be seen.
pub proof fn new_blocks_are_as_asked(kind: AgentBlockKind, id: u64, x: u32, y: u32)
    ensures
        ({
            let b = new_block(kind, id, x, y);
            &&& b.kind == kind
            &&& b.id == id
            &&& b.x == x
            &&& b.y == y
            &&& ends(b.title, decimal(id as nat))
            &&& visible_block(b)
        }),
{
    let b = new_block(kind, id, x, y);
    let n = decimal(id as nat);
    assert(b.title.subrange(b.title.len() - n.len(), b.title.len() as int) =~= n);
}

/// An old graph has both coders once it is in order.
pub proof fn old_graphs_get_the_new_coders(g: Graph)
    requires
        old_start(g.current().blocks),
    ensures
        any_deepseek(g.normal().blocks),
        any_large_coder(g.normal().blocks),
{
    let cur = g.current();
    let d = cur.with_deepseek();
    lemma_push_keeps(cur.blocks, deepseek_block(larger(cur.next_id, 8)));
    let top = top_id(d.blocks);
    let id = if top == u64::MAX {
        top
    } else {
        (top + 1) as u64
    };
    lemma_push_keeps(d.blocks, large_coder_block(id));
}

// ---------------------------------------------------------------------------------------------
// Functions
// ---------------------------------------------------------------------------------------------

/// Whether the bits are those of a number above 40.
pub fn is_above_forty(bits: u32) -> (r: bool)
    ensures
        r == above_forty(bits),
{
    0x4220_0000 < bits && bits <= 0x7f80_0000
}

/// Whether there is a block with the given number.
pub fn block_exists(blocks: &Vec<AgentBlock>, id: u64) -> (r: bool)
    ensures
        r == has_id(blocks_view(blocks@), id),
{
    let n: usize = blocks.len();
    let ghost all = blocks_view(blocks@);
    let mut i: usize = 0;
    while i < n
        invariant
            i <= n == blocks@.len(),
            all == blocks_view(blocks@),
            forall|k: int| 0 <= k < i ==> (#[trigger] all[k]).id != id,
        decreases n - i,
    {
        assert(all[i as int] == blocks@[i as int]@);
        if blocks[i].id == id {
            return true;
        }
        i += 1;
    }
    false
}

/// Whether there is a block with the given number and title.
fn titled_block_exists(blocks: &Vec<AgentBlock>, id: u64, title: &str) -> (r: bool)
    ensures
        r == has_block(blocks_view(blocks@), id, title@),
{
    let n: usize = blocks.len();
    let ghost all = blocks_view(blocks@);
    let mut i: usize = 0;
    while i < n
        invariant
            i <= n == blocks@.len(),
            all == blocks_view(blocks@),
            forall|k: int| 0 <= k < i ==> (#[trigger] all[k]).id != id || all[k].title != title@,
        decreases n - i,
    {
        assert(all[i as int] == blocks@[i as int]@);
        if blocks[i].id == id && text_is(blocks[i].title.as_str(), title) {
            return true;
        }
        i += 1;
    }
    false
}

/// Whether there is a connection between the given blocks.
pub fn connection_exists(connections: &Vec<AgentConnection>, from: u64, to: u64) -> (r: bool)
    ensures
        r == has_link(links_view(connections@), from, to),
{
    let n: usize = connections.len();
    let ghost all = links_view(connections@);
    let mut i: usize = 0;
    while i < n
        invariant
            i <= n == connections@.len(),
            all == links_view(connections@),
            forall|k: int| 0 <= k < i ==> (#[trigger] all[k]).from != from || all[k].to != to,
        decreases n - i,
    {
        assert(all[i as int] == connections@[i as int]@);
        if connections[i].from == from && connections[i].to == to {
            return true;
        }
        i += 1;
    }
    false
}

/// Whether the blocks are those that installations once began with.
fn is_old_start(blocks: &Vec<AgentBlock>) -> (r: bool)
    ensures
        r == old_start(blocks_view(blocks@)),
{
    titled_block_exists(blocks, 2, "Unterverwalter Code") && titled_block_exists(
        blocks,
        3,
        "CodeLlama Coder",
    ) && titled_block_exists(blocks, 4, "Qwen Coder")
}

/// Whether there is a block of the DeepSeek coder.
fn deepseek_exists(blocks: &Vec<AgentBlock>) -> (r: bool)
    ensures
        r == any_deepseek(blocks_view(blocks@)),
{
    let n: usize = blocks.len();
    let ghost all = blocks_view(blocks@);
    let mut i: usize = 0;
    while i < n
        invariant
            i <= n == blocks@.len(),
            all == blocks_view(blocks@),
            forall|k: int| 0 <= k < i ==> !deepseek(#[trigger] all[k]),
        decreases n - i,
    {
        assert(all[i as int] == blocks@[i as int]@);
        if text_is(blocks[i].model.as_str(), DEEPSEEK_CODER_MODEL) || contains(
            blocks[i].title.as_str(),
            "DeepSeek",
        ) {
            return true;
        }
        i += 1;
    }
    false
}

/// Whether there is a block of the large coder.
fn large_coder_exists(blocks: &Vec<AgentBlock>) -> (r: bool)
    ensures
        r == any_large_coder(blocks_view(blocks@)),
{
    let n: usize = blocks.len();
    let ghost all = blocks_view(blocks@);
    let mut i: usize = 0;
    while i < n
        invariant
            i <= n == blocks@.len(),
            all == blocks_view(blocks@),
            forall|k: int| 0 <= k < i ==> !large_coder(#[trigger] all[k]),
        decreases n - i,
    {
        assert(all[i as int] == blocks@[i as int]@);
        if blocks[i].kind == AgentBlockKind::CodingAgent && (text_is(
            blocks[i].title.as_str(),
            "GPT Coding Agent",
        ) || text_is(blocks[i].model.as_str(), LOCAL_GPT_ROUTER_MODEL)) {
            return true;
        }
        i += 1;
    }
    false
}

/// The largest number of a block, or zero.
fn largest_id(blocks: &Vec<AgentBlock>) -> (r: u64)
    ensures
        r == top_id(blocks_view(blocks@)),
{
    let n: usize = blocks.len();
    let ghost all = blocks_view(blocks@);
    let mut top: u64 = 0;
    let mut i: usize = 0;
    while i < n
        invariant
            i <= n == blocks@.len(),
            all == blocks_view(blocks@),
            top == top_id(all.take(i as int)),
        decreases n - i,
    {
        assert(all.take(i + 1).drop_last() =~= all.take(i as int));
        assert(all.take(i + 1).last() == blocks@[i as int]@);
        if blocks[i].id > top {
            top = blocks[i].id;
        }
        i += 1;
    }
    assert(all.take(n as int) =~= all);
    top
}

/// The blocks that can be seen, with their models brought up to date.
fn current_blocks(blocks: &Vec<AgentBlock>) -> (r: Vec<AgentBlock>)
    ensures
        blocks_view(r@) == blocks_view(blocks@).filter(|b: Block| visible_block(b)).map_values(
            |b: Block| updated(b),
        ),
{
    let n: usize = blocks.len();
    let ghost all = blocks_view(blocks@);
    let ghost f = |b: Block| visible_block(b);
    let ghost u = |b: Block| updated(b);
    let mut out: Vec<AgentBlock> = Vec::new();
    let mut i: usize = 0;
    proof {
        reveal(Seq::filter);
        assert(all.take(0) =~= Seq::<Block>::empty());
        assert(blocks_view(out@) =~= all.take(0).filter(f).map_values(u));
    }
    while i < n
        invariant
            i <= n == blocks@.len(),
            all == blocks_view(blocks@),
            f == (|b: Block| visible_block(b)),
            u == (|b: Block| updated(b)),
            blocks_view(out@) == all.take(i as int).filter(f).map_values(u),
        decreases n - i,
    {
        let block = &blocks[i];
        let ghost before = out@;
        proof {
            reveal(Seq::filter);
            assert(all.take(i + 1).drop_last() =~= all.take(i as int));
            assert(all.take(i + 1).last() == block@);
        }
        if is_above_forty(block.w) && is_above_forty(block.h) {
            let mut copy = block.copy();
            if text_is(copy.model.as_str(), "qwen2.5-coder:0.5b") {
                copy.model = QWEN_CODER_MODEL.to_owned();
            }
            assert(copy@ == updated(block@));
            out.push(copy);
            proof {
                let kept = all.take(i as int).filter(f);
                assert(kept.push(block@).map_values(u) =~= kept.map_values(u).push(
                    updated(block@),
                ));
                assert(blocks_view(out@) =~= blocks_view(before).push(updated(block@)));
            }
        }
        i += 1;
    }
    assert(all.take(n as int) =~= all);
    out
}

/// The connections between two different blocks that are there.
fn joining_connections(blocks: &Vec<AgentBlock>, connections: &Vec<AgentConnection>) -> (r: Vec<
    AgentConnection,
>)
    ensures
        links_view(r@) == links_view(connections@).filter(
            |l: Link|
                has_id(blocks_view(blocks@), l.from) && has_id(blocks_view(blocks@), l.to) && l.from
                    != l.to,
        ),
{
    let n: usize = connections.len();
    let ghost all = links_view(connections@);
    let ghost b = blocks_view(blocks@);
    let ghost f = |l: Link| has_id(b, l.from) && has_id(b, l.to) && l.from != l.to;
    let mut out: Vec<AgentConnection> = Vec::new();
    let mut i: usize = 0;
    proof {
        reveal(Seq::filter);
        assert(all.take(0) =~= Seq::<Link>::empty());
        assert(links_view(out@) =~= all.take(0).filter(f));
    }
    while i < n
        invariant
            i <= n == connections@.len(),
            all == links_view(connections@),
            b == blocks_view(blocks@),
            f == (|l: Link| has_id(b, l.from) && has_id(b, l.to) && l.from != l.to),
            links_view(out@) == all.take(i as int).filter(f),
        decreases n - i,
    {
        let link = &connections[i];
        let ghost before = out@;
        proof {
            reveal(Seq::filter);
            assert(all.take(i + 1).drop_last() =~= all.take(i as int));
            assert(all.take(i + 1).last() == link@);
        }
        if block_exists(blocks, link.from) && block_exists(blocks, link.to) && link.from != link.to {
            out.push(link.copy());
            assert(links_view(out@) =~= links_view(before).push(link@));
        }
        i += 1;
    }
    assert(all.take(n as int) =~= all);
    out
}

/// Drops blocks that cannot be seen, brings models up to date, and gives an old graph the coders
/// that it lacks.
fn complete_graph(graph: &mut AgentGraph)
    ensures
        final(graph)@ == old(graph)@.completed(),
{
    let ghost start = graph@;
    graph.blocks = current_blocks(&graph.blocks);
    assert(graph@ == start.current());
    let old_one = is_old_start(&graph.blocks);
    if old_one && !deepseek_exists(&graph.blocks) {
        let id: u64 = if graph.next_id >= 8 {
            graph.next_id
        } else {
            8
        };
        let ghost cur = graph@;
        graph.blocks.push(
            AgentBlock {
                id,
                title: "DeepSeek Coder".to_owned(),
                kind: AgentBlockKind::CodingAgent,
                model: DEEPSEEK_CODER_MODEL.to_owned(),
                prompt: "Create another coding solution and pay attention to runnable programs.".to_owned(),
                task: "Third coding answer.".to_owned(),
                x: px(1140),
                y: px(205),
                w: px(220),
                h: px(112),
            },
        );
        assert(graph@.blocks =~= cur.blocks.push(deepseek_block(id)));
        if !connection_exists(&graph.connections, 2, id) {
            graph.connections.push(
                AgentConnection { from: 2, to: id, label: "DeepSeek".to_owned() },
            );
            assert(graph@.links =~= cur.links.push(Link { from: 2, to: id, label: "DeepSeek"@ }));
        }
        proof {
            lemma_push_keeps(cur.blocks, deepseek_block(id));
        }
    }
    assert(graph@ == start.current().with_deepseek());
    assert(old_one == old_start(graph@.blocks));
    if old_one && !large_coder_exists(&graph.blocks) {
        let top: u64 = largest_id(&graph.blocks);
        let id: u64 = if top == u64::MAX {
            top
        } else {
            top + 1
        };
        let ghost cur = graph@;
        graph.blocks.push(
            AgentBlock {
                id,
                title: "GPT Coding Agent".to_owned(),
                kind: AgentBlockKind::CodingAgent,
                model: LOCAL_GPT_ROUTER_MODEL.to_owned(),
                prompt: "Create precise code changes and executable command solutions as safe file actions.".to_owned(),
                task: "GPT coding solution and command expertise.".to_owned(),
                x: px(1140),
                y: px(335),
                w: px(220),
                h: px(112),
            },
        );
        graph.connections.push(
            AgentConnection { from: 2, to: id, label: "GPT Coding".to_owned() },
        );
        assert(graph@.blocks =~= cur.blocks.push(large_coder_block(id)));
        assert(graph@.links =~= cur.links.push(Link { from: 2, to: id, label: "GPT Coding"@ }));
    }
    assert(graph@ == start.completed());
}

/// Whether the numbers of the blocks leave room for another one once the graph is in order.
pub fn graph_has_room(graph: &AgentGraph) -> (r: bool)
    ensures
        r == graph@.has_room(),
{
    let mut trial = graph.copy();
    complete_graph(&mut trial);
    largest_id(&trial.blocks) < u64::MAX
}

/// Sets a graph in order: drops blocks that cannot be seen and connections that lead nowhere,
/// brings models up to date, and gives an old graph the coders that it lacks.
pub fn normalize_agent_graph(graph: &mut AgentGraph)
    requires
        old(graph)@.has_room(),
    ensures
        final(graph)@ == old(graph)@.normal(),
{
    let ghost c = graph@.completed();
    complete_graph(graph);
    let top: u64 = largest_id(&graph.blocks);
    graph.connections = joining_connections(&graph.blocks, &graph.connections);
    proof {
        let f = |l: Link| c.joins(l);
        let g = |l: Link| has_id(c.blocks, l.from) && has_id(c.blocks, l.to) && l.from != l.to;
        assert(f =~= g);
    }
    if graph.next_id < top + 1 {
        graph.next_id = top + 1;
    }
}

// ---------------------------------------------------------------------------------------------
// The graph as text
// ---------------------------------------------------------------------------------------------

/// What stands above the graph in its text.
pub const CODE_HEAD: &'static str =
    "# Local Coding AI Agent Graph\n# Edit either this code or the blocks. The JSON section is the source for re-import.\n\n";

/// What the graph begins with in its text.
pub const CODE_MARKER: &'static str = "AGENT_GRAPH_JSON = r'''";

/// What the graph ends with in its text.
pub const CODE_END: &'static str = "'''";

/// What stands below the graph in its text.
pub const CODE_TAIL: &'static str =
    "\n\ndef run_agent_graph(task):\n    \"\"\"Sketch of the agent structure. Local AI uses the same graph in the block view.\"\"\"\n    graph = AGENT_GRAPH_JSON\n    return {\n        \"task\": task,\n        \"graph_json\": graph,\n    }\n";

/// The text of a graph, made from its JSON.
pub open spec fn code_of(json: Seq<char>) -> Seq<char> {
    CODE_HEAD@ + CODE_MARKER@ + "\n"@ + json + "\n"@ + CODE_END@ + CODE_TAIL@
}

/// The JSON in the text of a graph: what stands between the marker and the next end.
pub open spec fn json_of(code: Seq<char>) -> Result<Seq<char>, Seq<char>> {
    match first_at(code, CODE_MARKER@) {
        None => Err("AGENT_GRAPH_JSON was not found."@),
        Some(i) => {
            let rest = code.skip(i + CODE_MARKER@.len());
            match first_at(rest, CODE_END@) {
                None => Err("End of the AGENT_GRAPH_JSON block was not found."@),
                Some(j) => Ok(trimmed(rest.take(j))),
            }
        },
    }
}

/// The text of a graph, made from its JSON.
pub fn graph_to_python_code(json: &str) -> (r: String)
    ensures
        r@ == code_of(json@),
{
    let mut out = cat5(CODE_HEAD, CODE_MARKER, "\n", json, "\n");
    out.append(CODE_END);
    out.append(CODE_TAIL);
    out
}

/// The JSON in the text of a graph, or why there is none.
pub fn graph_from_python_code(code: &str) -> (r: Result<String, String>)
    ensures
        match r {
            Ok(json) => json_of(code@) == Ok::<Seq<char>, Seq<char>>(json@),
            Err(e) => json_of(code@) == Err::<Seq<char>, Seq<char>>(e@),
        },
{
    match find(code, CODE_MARKER) {
        None => Err("AGENT_GRAPH_JSON was not found.".to_owned()),
        Some(i) => {
            let total: usize = code.unicode_len();
            assert(i + CODE_MARKER@.len() <= total);
            let rest = skip_chars(code, i + CODE_MARKER.unicode_len());
            match find(rest, CODE_END) {
                None => Err("End of the AGENT_GRAPH_JSON block was not found.".to_owned()),
                Some(j) => Ok(trim(take_chars(rest, j)).to_owned()),
            }
        },
    }
}

/// The two characters follow on each other nowhere from `i` on.
pub open spec fn without_pair(s: Seq<char>, a: char, b: char, i: int) -> bool
    decreases s.len() - i,
{
    i < 0 || i + 1 >= s.len() || (!(s[i] == a && s[i + 1] == b) && without_pair(s, a, b, i + 1))
}

/// [`without_pair`] speaks of every position.
proof fn lemma_without_pair(s: Seq<char>, a: char, b: char, i: int, j: int)
    requires
        without_pair(s, a, b, i),
        0 <= i <= j,
        j + 1 < s.len(),
    ensures
        !(s[j] == a && s[j + 1] == b),
    decreases j - i,
{
    if i < j {
        lemma_without_pair(s, a, b, i + 1, j);
    }
}

/// The marker does not stand above the graph.
proof fn lemma_head_has_no_marker(j: int)
    requires
        0 <= j,
        j + 1 < CODE_HEAD@.len(),
    ensures
        !(CODE_HEAD@[j] == 'A' && CODE_HEAD@[j + 1] == 'G'),
{
    reveal_strlit(
        "# Local Coding AI Agent Graph\n# Edit either this code or the blocks. The JSON section is the source for re-import.\n\n",
    );
    reveal_with_fuel(without_pair, 31);
    assert(without_pair(CODE_HEAD@, 'A', 'G', 90));
    assert(without_pair(CODE_HEAD@, 'A', 'G', 60));
    assert(without_pair(CODE_HEAD@, 'A', 'G', 30));
    assert(without_pair(CODE_HEAD@, 'A', 'G', 0));
    lemma_without_pair(CODE_HEAD@, 'A', 'G', 0, j);
}

/// The marker is found where it was put.
proof fn lemma_marker_found(tail: Seq<char>)
    ensures
        first_at(CODE_HEAD@ + CODE_MARKER@ + tail, CODE_MARKER@) == Some(CODE_HEAD@.len() as int),
{
    reveal_strlit("AGENT_GRAPH_JSON = r'''");
    let head = CODE_HEAD@;
    let marker = CODE_MARKER@;
    let code = head + marker + tail;
    let at = head.len() as int;
    assert(code.subrange(at, at + marker.len()) =~= marker);
    assert forall|j: int| 0 <= j < at implies !occurs_at(code, marker, j) by {
        if occurs_at(code, marker, j) {
            let found = code.subrange(j, j + marker.len());
            assert(found[0] == 'A' && found[1] == 'G');
            assert(code[j] == head[j]);
            if j + 1 < at {
                assert(code[j + 1] == head[j + 1]);
                lemma_head_has_no_marker(j);
            } else {
                lemma_head_ends_in_line_feed();
            }
        }
    }
    lemma_found_first(code, marker, at);
}

/// What stands above the graph ends in a line feed.
proof fn lemma_head_ends_in_line_feed()
    ensures
        CODE_HEAD@.len() > 0,
        CODE_HEAD@.last() == '\n',
{
    reveal_strlit(
        "# Local Coding AI Agent Graph\n# Edit either this code or the blocks. The JSON section is the source for re-import.\n\n",
    );
}

/// The end is found where it was put.
proof fn lemma_end_found(json: Seq<char>, tail: Seq<char>)
    requires
        !holds(json, CODE_END@),
    ensures
        ({
            let body = "\n"@ + json + "\n"@;
            first_at(body + CODE_END@ + tail, CODE_END@) == Some(body.len() as int)
        }),
{
    reveal_strlit("'''");
    reveal_strlit("\n");
    let body = "\n"@ + json + "\n"@;
    let rest = body + CODE_END@ + tail;
    let end = body.len() as int;
    assert(rest.subrange(end, end + 3) =~= CODE_END@);
    assert forall|j: int| 0 <= j < end implies !occurs_at(rest, CODE_END@, j) by {
        if occurs_at(rest, CODE_END@, j) {
            let found = rest.subrange(j, j + 3);
            assert(found[0] == '\'' && found[1] == '\'' && found[2] == '\'');
            assert(rest[j] == '\'' && rest[j + 1] == '\'' && rest[j + 2] == '\'');
            assert(rest[0] == '\n');
            assert(rest[end - 1] == '\n');
            assert(j >= 1 && j + 2 < end - 1);
            assert(json.subrange(j - 1, j + 2) =~= CODE_END@);
            assert(occurs_at(json, CODE_END@, j - 1));
        }
    }
    lemma_found_first(rest, CODE_END@, end);
}

/// What is written as the text of a graph is read back from it, without the white space around
/// it. Three quotes in a row in the JSON would end it early.
pub proof fn graph_text_is_read_back(json: Seq<char>)
    requires
        !holds(json, CODE_END@),
    ensures
        json_of(code_of(json)) == Ok::<Seq<char>, Seq<char>>(trimmed(json)),
{
    let code = code_of(json);
    let body = "\n"@ + json + "\n"@;
    let rest = body + CODE_END@ + CODE_TAIL@;
    assert(code =~= CODE_HEAD@ + CODE_MARKER@ + rest);
    lemma_marker_found(rest);
    assert(code.skip((CODE_HEAD@.len() + CODE_MARKER@.len()) as int) =~= rest);
    lemma_end_found(json, CODE_TAIL@);
    assert(rest.take(body.len() as int) =~= body);
    lemma_trim_line_feeds(json);
}

} // verus!
