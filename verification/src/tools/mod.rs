//! The task tools: where task files lie, what the tools take, and what they answer.
use vstd::prelude::*;
use crate::ext::{join_path, json_field_str, json_str_field, path_join};

verus! {

/// A tool call: the tool's name and its JSON parameters.
#[derive(Debug)]
pub struct ToolCall {
    pub name: String,
    pub params: String,
}

/// The state of a task, which is also the directory its file lies in.
#[derive(Debug, Clone, Copy, PartialEq, Eq, Structural)]
pub enum TaskStatus {
    Pending,
    Active,
    Completed,
    Failed,
}

/// The directory of the tasks in state `s`.
pub open spec fn status_dir(s: TaskStatus) -> Seq<char> {
    match s {
        TaskStatus::Pending => "pending"@,
        TaskStatus::Active => "active"@,
        TaskStatus::Completed => "completed"@,
        TaskStatus::Failed => "failed"@,
    }
}

impl TaskStatus {
    /// The directory of the tasks in this state (see `status_dir`).
    pub fn dir_name(&self) -> (r: &'static str)
        ensures
            r@ == status_dir(*self),
    {
        match self {
            TaskStatus::Pending => "pending",
            TaskStatus::Active => "active",
            TaskStatus::Completed => "completed",
            TaskStatus::Failed => "failed",
        }
    }
}

/// Law: each task state has a directory of its own, named after the state
/// in lower case: `pending`, `active`, `completed` and `failed` in the order
/// the states are searched; no two states share a directory, so a task moved
/// to another state is no longer found under its old one.
pub proof fn law_task_dirs_distinct(a: TaskStatus, b: TaskStatus)
    ensures
        a != b ==> status_dir(a) != status_dir(b),
        seq![TaskStatus::Pending, TaskStatus::Active, TaskStatus::Completed, TaskStatus::Failed].map_values(
            |s: TaskStatus| status_dir(s),
        ) == seq!["pending"@, "active"@, "completed"@, "failed"@],
{
    reveal_strlit("pending");
    reveal_strlit("active");
    reveal_strlit("completed");
    reveal_strlit("failed");
    if a != b {
        let x = status_dir(a);
        let y = status_dir(b);
        if x.len() == y.len() {
            assert(x[0] != y[0] || x[1] != y[1]);
        }
    }
    assert(seq![TaskStatus::Pending, TaskStatus::Active, TaskStatus::Completed, TaskStatus::Failed].map_values(
        |s: TaskStatus| status_dir(s),
    ) =~= seq!["pending"@, "active"@, "completed"@, "failed"@]);
}

/// The file of task `task_id` in state `status`, under workspace `ws`:
/// `tasks/<status>/<task_id>.json`.
pub open spec fn task_file_of(ws: Seq<char>, status: TaskStatus, task_id: Seq<char>) -> Seq<char> {
    path_join(path_join(path_join(ws, "tasks"@), status_dir(status)), task_id + ".json"@)
}

/// The file of task `task_id` in state `status` (see `task_file_of`).
pub fn task_file(ws: &str, status: TaskStatus, task_id: &str) -> (r: String)
    ensures
        r@ == task_file_of(ws@, status, task_id@),
{
    let tasks = join_path(ws, "tasks");
    let dir = join_path(tasks.as_str(), status.dir_name());
    let mut file = task_id.to_owned();
    file.append(".json");
    join_path(dir.as_str(), file.as_str())
}

/// The states in which a task is looked for, in order.
pub fn search_order() -> (r: Vec<TaskStatus>)
    ensures
        r@ == seq![TaskStatus::Pending, TaskStatus::Active, TaskStatus::Completed, TaskStatus::Failed],
{
    let mut r: Vec<TaskStatus> = Vec::new();
    r.push(TaskStatus::Pending);
    r.push(TaskStatus::Active);
    r.push(TaskStatus::Completed);
    r.push(TaskStatus::Failed);
    proof {
        assert(r@ =~= seq![TaskStatus::Pending, TaskStatus::Active, TaskStatus::Completed, TaskStatus::Failed]);
    }
    r
}

/// The string parameter `key` of the JSON parameters `params`, or `missing`
/// as the error when there is none.
pub fn string_param(params: &str, key: &str, missing: &str) -> (r: Result<String, String>)
    ensures
        match json_field_str(params@, key@) {
            Some(v) => r matches Ok(x) && x@ == v,
            None => r matches Err(e) && e@ == missing@,
        },
{
    match json_str_field(params, key) {
        Some(v) => Ok(v),
        None => Err(missing.to_owned()),
    }
}

/// The answer of the claim tool.
pub open spec fn claimed_text(short_id: Seq<char>, agent_id: Seq<char>) -> Seq<char> {
    "Task #"@ + short_id + " has been claimed by "@ + agent_id
}

/// The answer of the claim tool when task `short_id` was claimed by `agent_id`.
pub fn claimed_message(short_id: &str, agent_id: &str) -> (r: String)
    ensures
        r@ == claimed_text(short_id@, agent_id@),
{
    let mut r = "Task #".to_owned();
    r.append(short_id);
    r.append(" has been claimed by ");
    r.append(agent_id);
    r
}

/// The error of a tool that found no task `task_id` (`where_` empty when it
/// looked everywhere, else ` in <state>`).
pub fn not_found_message(task_id: &str, where_: &str) -> (r: String)
    ensures
        r@ == "Task "@ + task_id@ + " not found"@ + where_@,
{
    let mut r = "Task ".to_owned();
    r.append(task_id);
    r.append(" not found");
    r.append(where_);
    r
}

/// The tool that reads a task.
#[derive(Debug)]
pub struct TaskReadTool {
    workspace_path: String,
}

/// The tool with which an agent claims a pending task.
#[derive(Debug)]
pub struct TaskClaimTool {
    workspace_path: String,
}

/// The tool that records the progress of an active task.
#[derive(Debug)]
pub struct TaskProgressTool {
    workspace_path: String,
}

impl TaskReadTool {
    /// The tool for the workspace at `workspace_path`.
    pub fn new(workspace_path: String) -> (t: Self)
        ensures
            t.workspace() == workspace_path@,
    {
        TaskReadTool { workspace_path }
    }

    /// The workspace the tool works in.
    pub closed spec fn workspace(&self) -> Seq<char> {
        self.workspace_path@
    }

    /// The workspace the tool works in.
    pub fn workspace_path(&self) -> (r: &str)
        ensures
            r@ == self.workspace(),
    {
        self.workspace_path.as_str()
    }

    /// The tool's name.
    pub fn name(&self) -> (r: &'static str)
        ensures
            r@ == "task_read"@,
    {
        "task_read"
    }
}

impl TaskClaimTool {
    /// The tool for the workspace at `workspace_path`.
    pub fn new(workspace_path: String) -> (t: Self)
        ensures
            t.workspace() == workspace_path@,
    {
        TaskClaimTool { workspace_path }
    }

    /// The workspace the tool works in.
    pub closed spec fn workspace(&self) -> Seq<char> {
        self.workspace_path@
    }

    /// The workspace the tool works in.
    pub fn workspace_path(&self) -> (r: &str)
        ensures
            r@ == self.workspace(),
    {
        self.workspace_path.as_str()
    }

    /// The tool's name.
    pub fn name(&self) -> (r: &'static str)
        ensures
            r@ == "task_claim"@,
    {
        "task_claim"
    }
}

impl TaskProgressTool {
    /// The tool for the workspace at `workspace_path`.
    pub fn new(workspace_path: String) -> (t: Self)
        ensures
            t.workspace() == workspace_path@,
    {
        TaskProgressTool { workspace_path }
    }

    /// The workspace the tool works in.
    pub closed spec fn workspace(&self) -> Seq<char> {
        self.workspace_path@
    }

    /// The workspace the tool works in.
    pub fn workspace_path(&self) -> (r: &str)
        ensures
            r@ == self.workspace(),
    {
        self.workspace_path.as_str()
    }

    /// The tool's name.
    pub fn name(&self) -> (r: &'static str)
        ensures
            r@ == "task_progress"@,
    {
        "task_progress"
    }
}

} // verus!
