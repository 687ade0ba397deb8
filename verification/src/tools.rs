//! The tools that look at a workspace: list its files, read them and search them.
use vstd::prelude::*;
use vstd::slice::slice_subrange;

use crate::config::Mode;
use crate::error;
use crate::error::{tool_error, AgentError, ErrorV};
use crate::json;
use crate::json::{add_item, parse, put, Json, JsonV};
use crate::paths::PathPart;
use crate::permissions;
use crate::permissions::{Decision, PermissionError, PermissionErrorV, PermissionPolicy};
use crate::protocol;
use crate::protocol::{ToolSpec, ToolSpecV};
use crate::text;
use crate::text::{
    cat2, cat3, cat5, decimal, forward_slashes_of, from_chars, join, lines_of, no_text, same_text,
    sort, to_chars, trim_back_of, utf8_lossy, CharSet,
};

verus! {

/// The tools of a workspace.
pub struct WorkspaceTools {
    root: Vec<PathPart>,
    policy: PermissionPolicy,
    max_output_chars: usize,
}

impl WorkspaceTools {
    /// The root of the workspace.
    pub closed spec fn root(&self) -> Seq<PathPart> {
        self.root@
    }

    /// The globs of files that are not to be read.
    pub closed spec fn hidden(&self) -> Seq<Seq<char>> {
        text::views(self.policy.deny_read@)
    }

    /// How many characters a tool may give back.
    pub closed spec fn limit(&self) -> usize {
        self.max_output_chars
    }

    /// The tools of a workspace whose root the file system resolved or failed to.
    pub fn new(
        root: Result<Vec<PathPart>, String>,
        policy: PermissionPolicy,
        max_output_chars: usize,
    ) -> (tools: Result<Self, AgentError>)
        ensures
            match root {
                Ok(parts) => tools matches Ok(t) && t.root() == parts@ && t.hidden()
                    == text::views(policy.deny_read@) && t.limit() == max_output_chars,
                Err(source) => tools matches Err(e) && e@ == (ErrorV::Tool {
                    tool: "workspace"@,
                    message: source@,
                }),
            },
    {
        match root {
            Ok(root) => Ok(WorkspaceTools { root, policy, max_output_chars }),
            Err(source) => Err(tool_error("workspace", source)),
        }
    }

    /// The root of the workspace.
    pub fn root_parts(&self) -> (root: &Vec<PathPart>)
        ensures
            root@ == self.root(),
    {
        &self.root
    }
}

/// A text cut down to a number of characters, with a note where it was cut.
pub open spec fn truncated(value: Seq<char>, limit: usize) -> Seq<char> {
    if value.len() <= limit {
        value
    } else {
        value.take(limit as int) + "\n… output truncated"@
    }
}

impl WorkspaceTools {
    /// Cuts a text down to what a tool may give back.
    pub fn truncate(&self, value: String) -> (shown: String)
        ensures
            shown@ == truncated(value@, self.limit()),
    {
        let chars = to_chars(value.as_str());
        if chars.len() <= self.max_output_chars {
            return value;
        }
        let kept = slice_subrange(chars.as_slice(), 0, self.max_output_chars);
        assert(kept@ == value@.take(self.limit() as int));
        cat2(from_chars(kept).as_str(), "\n… output truncated")
    }
}

/// A tool gives back no more than its limit and the note that something was cut.
pub proof fn law_output_is_bounded(value: Seq<char>, limit: usize)
    ensures
        truncated(value, limit).len() <= limit + "\n… output truncated"@.len(),
        value.len() <= limit ==> truncated(value, limit) == value,
        value.take(
            if value.len() <= limit {
                value.len() as int
            } else {
                limit as int
            },
        ).is_prefix_of(truncated(value, limit)),
{
}

/// What is said of a path whose reading was judged: nothing where it is allowed.
pub open spec fn admission(requested: Seq<char>, decision: Result<Decision, PermissionErrorV>) -> Result<
    (),
    ErrorV,
> {
    match decision {
        Err(error) => Err(
            ErrorV::Tool {
                tool: "permission"@,
                message: permissions::permission_text(error),
            },
        ),
        Ok(Decision::Deny) => Err(
            ErrorV::Tool { tool: "permission"@, message: "read denied: "@ + requested },
        ),
        Ok(_) => Ok(()),
    }
}

/// What is said of a path, given the decision on it.
pub fn admitted(requested: &str, decision: Result<Decision, PermissionError>) -> (result: Result<
    (),
    AgentError,
>)
    ensures
        error::unit_result(result) == admission(
            requested@,
            permissions::decision_result(decision),
        ),
{
    match decision {
        Err(error) => Err(tool_error("permission", error.describe())),
        Ok(Decision::Deny) => Err(tool_error("permission", cat2("read denied: ", requested))),
        Ok(_) => Ok(()),
    }
}

impl WorkspaceTools {
    /// Whether a path may be looked at. Where it may, it has still to be resolved inside the root.
    pub fn relative(&self, requested: &str) -> (result: Result<(), AgentError>)
        ensures
            exists|decision: Result<Decision, PermissionErrorV>|
                {
                    &&& #[trigger] permissions::reads_as(self.hidden(), requested@, decision)
                    &&& error::unit_result(result) == admission(requested@, decision)
                },
    {
        let decision = self.policy.read_decision(requested);
        let ghost judged = permissions::decision_result(decision);
        let result = admitted(requested, decision);
        assert(permissions::reads_as(self.hidden(), requested@, judged));
        result
    }
}

/// The error of a path that could not be resolved inside the root.
pub fn path_error(source: &PermissionError) -> (error: AgentError)
    ensures
        error@ == (ErrorV::Tool {
            tool: "path"@,
            message: permissions::permission_text(source@),
        }),
{
    tool_error("path", source.describe())
}

/// What a call asks a tool to do.
#[derive(Debug, Clone, PartialEq, Eq)]
pub enum ToolPlan {
    ListFiles { path: String, depth: usize },
    ReadFile { path: String, start: Option<u64>, end: Option<u64> },
    Search { pattern: String, path: String },
}

/// What a call asks a tool to do, in the model.
#[verifier::ext_equal]
pub enum ToolPlanV {
    ListFiles { path: Seq<char>, depth: usize },
    ReadFile { path: Seq<char>, start: Option<u64>, end: Option<u64> },
    Search { pattern: Seq<char>, path: Seq<char> },
}

impl View for ToolPlan {
    type V = ToolPlanV;

    open spec fn view(&self) -> ToolPlanV {
        match *self {
            ToolPlan::ListFiles { path, depth } => ToolPlanV::ListFiles { path: path@, depth },
            ToolPlan::ReadFile { path, start, end } => ToolPlanV::ReadFile {
                path: path@,
                start,
                end,
            },
            ToolPlan::Search { pattern, path } => ToolPlanV::Search {
                pattern: pattern@,
                path: path@,
            },
        }
    }
}

/// The text of an argument, `otherwise` where there is none.
pub open spec fn text_or(args: JsonV, name: Seq<char>, otherwise: Seq<char>) -> Seq<char> {
    match args.at(name).text() {
        Some(t) => t,
        None => otherwise,
    }
}

/// The depth to which files are listed: three levels where nothing is asked for, eight at most.
pub open spec fn list_depth(args: JsonV) -> usize {
    match args.at("depth"@).unsigned() {
        Some(depth) => if depth > 8 {
            8
        } else {
            depth as usize
        },
        None => 3,
    }
}

/// The text of an argument that a tool must have.
pub open spec fn demanded_arg(args: JsonV, name: Seq<char>) -> Result<Seq<char>, ErrorV> {
    match args.at(name).text() {
        Some(t) => Ok(t),
        None => Err(ErrorV::Tool { tool: name, message: "missing string argument"@ }),
    }
}

/// What a call asks for, or what is wrong with it.
pub open spec fn call_plan(tool: Seq<char>, args: JsonV) -> Result<ToolPlanV, ErrorV> {
    if tool == "list_files"@ {
        Ok(ToolPlanV::ListFiles { path: text_or(args, "path"@, "."@), depth: list_depth(args) })
    } else if tool == "read_file"@ {
        match demanded_arg(args, "path"@) {
            Ok(path) => Ok(
                ToolPlanV::ReadFile {
                    path,
                    start: args.at("startLine"@).unsigned(),
                    end: args.at("endLine"@).unsigned(),
                },
            ),
            Err(error) => Err(error),
        }
    } else if tool == "search"@ {
        match demanded_arg(args, "pattern"@) {
            Ok(pattern) => Ok(ToolPlanV::Search { pattern, path: text_or(args, "path"@, "."@) }),
            Err(error) => Err(error),
        }
    } else {
        Err(ErrorV::Tool { tool, message: "unknown or unavailable tool"@ })
    }
}

/// What a plan or an agent's error says.
pub open spec fn plan_result(result: Result<ToolPlan, AgentError>) -> Result<ToolPlanV, ErrorV> {
    match result {
        Ok(plan) => Ok(plan@),
        Err(error) => Err(error@),
    }
}

/// The text of an argument.
pub fn string_arg<'a>(args: &'a Json, name: &str) -> (value: Option<&'a str>)
    ensures
        match value {
            Some(t) => args@.at(name@).text() == Some(t@),
            None => args@.at(name@).text() is None,
        },
{
    args.at(name).as_str()
}

/// The number of an argument.
pub fn integer_arg(args: &Json, name: &str) -> (value: Option<u64>)
    ensures
        value == args@.at(name@).unsigned(),
{
    args.at(name).as_u64()
}

/// The text of an argument that a tool must have.
pub fn required_arg(args: &Json, name: &str) -> (value: Result<String, AgentError>)
    ensures
        error::text_result(value) == demanded_arg(args@, name@),
{
    match string_arg(args, name) {
        Some(t) => Ok(t.to_owned()),
        None => Err(tool_error(name, "missing string argument".to_owned())),
    }
}

impl WorkspaceTools {
    /// Tells what a call asks for.
    pub fn execute(&self, tool: &str, args: &Json) -> (plan: Result<ToolPlan, AgentError>)
        ensures
            plan_result(plan) == call_plan(tool@, args@),
    {
        if same_text(tool, "list_files") {
            let path = match string_arg(args, "path") {
                Some(path) => path.to_owned(),
                None => ".".to_owned(),
            };
            let depth: usize = match integer_arg(args, "depth") {
                Some(depth) => if depth > 8 {
                    8
                } else {
                    depth as usize
                },
                None => 3,
            };
            Ok(ToolPlan::ListFiles { path, depth })
        } else if same_text(tool, "read_file") {
            match required_arg(args, "path") {
                Ok(path) => Ok(
                    ToolPlan::ReadFile {
                        path,
                        start: integer_arg(args, "startLine"),
                        end: integer_arg(args, "endLine"),
                    },
                ),
                Err(error) => Err(error),
            }
        } else if same_text(tool, "search") {
            match required_arg(args, "pattern") {
                Ok(pattern) => {
                    let path = match string_arg(args, "path") {
                        Some(path) => path.to_owned(),
                        None => ".".to_owned(),
                    };
                    Ok(ToolPlan::Search { pattern, path })
                },
                Err(error) => Err(error),
            }
        } else {
            Err(tool_error(tool, "unknown or unavailable tool".to_owned()))
        }
    }
}

/// The first line that is shown: the first one where nothing is asked for.
pub open spec fn first_line(start: Option<u64>) -> usize {
    match start {
        Some(n) => if n == 0 {
            1
        } else {
            n as usize
        },
        None => 1,
    }
}

/// The last line that is shown: four hundred lines where nothing is asked for, and no further than
/// the end.
pub open spec fn last_line(start: usize, end: Option<u64>, count: nat) -> nat {
    let asked = match end {
        Some(n) => n as usize as nat,
        None => if start + 399 > usize::MAX {
            usize::MAX as nat
        } else {
            (start + 399) as nat
        },
    };
    if asked > count {
        count
    } else {
        asked
    }
}

/// A line with its number in front of it.
pub open spec fn numbered(number: nat, line: Seq<char>) -> Seq<char> {
    text::decimal_text(number) + ": "@ + line
}

/// The lines `from` to `to`, counted from one, with their numbers.
pub open spec fn numbered_lines(lines: Seq<Seq<char>>, from: nat, to: nat) -> Seq<Seq<char>> {
    Seq::new(
        if to >= from {
            (to - from + 1) as nat
        } else {
            0
        },
        |i: int| numbered((from + i) as nat, lines[from + i - 1]),
    )
}

/// What reading lines of a file gives, before it is cut down.
pub open spec fn read_text(data: Seq<char>, start: Option<u64>, end: Option<u64>) -> Seq<char> {
    let lines = text::lines(data);
    let from = first_line(start);
    let to = last_line(from, end, lines.len());
    let shown = text::join_text(numbered_lines(lines, from as nat, to), "\n"@);
    if shown.len() == 0 {
        "(empty)"@
    } else {
        shown
    }
}

/// What the read tool gives back: that there are no lines where the first is beyond the line after
/// the last, else the lines.
pub open spec fn read_output(
    data: Seq<char>,
    start: Option<u64>,
    end: Option<u64>,
    limit: usize,
) -> Seq<char> {
    let from = first_line(start);
    let to = last_line(from, end, text::lines(data).len());
    if from > to + 1 {
        "(no lines)"@
    } else {
        truncated(read_text(data, start, end), limit)
    }
}

impl WorkspaceTools {
    /// Shows lines of a file that was read.
    pub fn read_file(&self, data: &str, start: Option<u64>, end: Option<u64>) -> (shown: String)
        requires
            first_line(start) >= 1,
        ensures
            shown@ == read_output(data@, start, end, self.limit()),
    {
        let chars = to_chars(data);
        let lines = lines_of(chars.as_slice());
        let ghost all = text::lines(data@);
        let from: usize = match start {
            Some(n) => if n == 0 {
                1
            } else {
                n as usize
            },
            None => 1,
        };
        let asked: usize = match end {
            Some(n) => n as usize,
            None => from.saturating_add(399),
        };
        let to: usize = if asked > lines.len() {
            lines.len()
        } else {
            asked
        };
        if from > to.saturating_add(1) {
            return "(no lines)".to_owned();
        }
        let ghost wanted = numbered_lines(all, from as nat, to as nat);
        let mut shown: Vec<String> = Vec::new();
        let mut i: usize = from - 1;
        while i < to
            invariant
                1 <= from,
                from - 1 <= i,
                i <= to || i == from - 1,
                to <= lines.len(),
                text::slice_views(lines@) == all,
                wanted == numbered_lines(all, from as nat, to as nat),
                text::views(shown@) == wanted.take(i + 1 - from),
            decreases to - i,
        {
            let line = from_chars(lines[i]);
            assert(line@ == all[i as int]);
            let ghost before = shown@;
            let entry = cat3(decimal(i as u128 + 1).as_str(), ": ", line.as_str());
            shown.push(entry);
            proof {
                let at = i + 1 - from;
                assert(text::views(shown@) == text::views(before).push(entry@));
                assert(wanted.take(at + 1) == wanted.take(at).push(wanted[at]));
            }
            i += 1;
        }
        assert(wanted.take(i + 1 - from) == wanted);
        let joined = join(&shown, "\n");
        self.truncate(
            if no_text(joined.as_str()) {
                "(empty)".to_owned()
            } else {
                joined
            },
        )
    }
}

/// Whether a name is one of the directories and files that are never listed.
pub open spec fn is_skipped_name(name: Seq<char>) -> bool {
    ||| name == ".git"@
    ||| name == ".codehelm"@
    ||| name == "node_modules"@
    ||| name == "target"@
    ||| name == "dist"@
    ||| name == "build"@
}

/// Whether a name is one of the directories and files that are never listed.
pub fn skipped_name(name: &str) -> (skipped: bool)
    ensures
        skipped == is_skipped_name(name@),
{
    same_text(name, ".git") || same_text(name, ".codehelm") || same_text(name, "node_modules")
        || same_text(name, "target") || same_text(name, "dist") || same_text(name, "build")
}

/// What an entry of a directory is.
#[derive(Debug, Clone, Copy, PartialEq, Eq, Structural)]
pub struct EntryKind {
    pub symlink: bool,
    pub directory: bool,
}

/// What a walk asks the file system for.
#[derive(Debug, PartialEq)]
pub enum WalkStep {
    /// Open the directory to list, at first the one that was asked for, later the last entry.
    Open,
    /// Give the next entry of the directory that was opened last and is not at its end.
    NextEntry,
    /// Tell what that entry is.
    Kind,
    /// Tell whether that entry leads to something inside the root.
    Link,
    /// Nothing: the walk is over.
    Done { result: Result<String, AgentError> },
}

/// What a walk asks for, in the model.
#[verifier::ext_equal]
pub enum WalkStepV {
    Open,
    NextEntry,
    Kind,
    Link,
    Done { result: Result<Seq<char>, ErrorV> },
}

impl View for WalkStep {
    type V = WalkStepV;

    open spec fn view(&self) -> WalkStepV {
        match *self {
            WalkStep::Open => WalkStepV::Open,
            WalkStep::NextEntry => WalkStepV::NextEntry,
            WalkStep::Kind => WalkStepV::Kind,
            WalkStep::Link => WalkStepV::Link,
            WalkStep::Done { result } => WalkStepV::Done { result: error::text_result(result) },
        }
    }
}

/// What the file system answers to a walk.
#[allow(inconsistent_fields)]
pub enum WalkReply {
    Opened { result: Result<(), String> },
    /// There is no further entry.
    End,
    /// The next entry cannot be listed.
    Failed { source: String },
    /// The name of the next entry, where it is a text, and its path below the root.
    Entry { name: Option<String>, relative: String },
    Kind { result: Result<EntryKind, String> },
    Link { inside: bool },
}

/// What the file system answers to a walk, in the model; of an entry the decision on it.
#[verifier::ext_equal]
#[allow(inconsistent_fields)]
pub enum WalkReplyV {
    Opened { result: Result<(), Seq<char>> },
    End,
    Failed { source: Seq<char> },
    Entry {
        name: Option<Seq<char>>,
        relative: Seq<char>,
        decision: Result<Decision, PermissionErrorV>,
    },
    Kind { result: Result<EntryKind, Seq<char>> },
    Link { inside: bool },
}

/// What an answer says, given the decision on the entry that it names, if it names one.
pub open spec fn reply_view(
    reply: WalkReply,
    decision: Result<Decision, PermissionErrorV>,
) -> WalkReplyV {
    match reply {
        WalkReply::Opened { result } => WalkReplyV::Opened {
            result: match result {
                Ok(()) => Ok(()),
                Err(source) => Err(source@),
            },
        },
        WalkReply::End => WalkReplyV::End,
        WalkReply::Failed { source } => WalkReplyV::Failed { source: source@ },
        WalkReply::Entry { name, relative } => WalkReplyV::Entry {
            name: protocol::optional_text(name),
            relative: relative@,
            decision,
        },
        WalkReply::Kind { result } => WalkReplyV::Kind {
            result: match result {
                Ok(kind) => Ok(kind),
                Err(source) => Err(source@),
            },
        },
        WalkReply::Link { inside } => WalkReplyV::Link { inside },
    }
}

/// What a walk waits for.
pub enum WalkPhase {
    Opening,
    Listing,
    Kind { relative: String },
    Link { relative: String, directory: bool },
    Over,
}

/// What a walk waits for, in the model.
#[verifier::ext_equal]
pub enum WalkPhaseV {
    Opening,
    Listing,
    Kind { relative: Seq<char> },
    Link { relative: Seq<char>, directory: bool },
    Over,
}

impl View for WalkPhase {
    type V = WalkPhaseV;

    open spec fn view(&self) -> WalkPhaseV {
        match *self {
            WalkPhase::Opening => WalkPhaseV::Opening,
            WalkPhase::Listing => WalkPhaseV::Listing,
            WalkPhase::Kind { relative } => WalkPhaseV::Kind { relative: relative@ },
            WalkPhase::Link { relative, directory } => WalkPhaseV::Link {
                relative: relative@,
                directory,
            },
            WalkPhase::Over => WalkPhaseV::Over,
        }
    }
}

/// A walk through the files of a workspace.
pub struct FileWalk {
    output: Vec<String>,
    depths: Vec<usize>,
    phase: WalkPhase,
}

/// A walk, in the model: what it lists so far, and for each open directory how many levels it and
/// what is below it may have.
#[verifier::ext_equal]
pub struct WalkV {
    pub output: Seq<Seq<char>>,
    pub depths: Seq<usize>,
    pub phase: WalkPhaseV,
}

impl View for FileWalk {
    type V = WalkV;

    closed spec fn view(&self) -> WalkV {
        WalkV { output: text::views(self.output@), depths: self.depths@, phase: self.phase@ }
    }
}

/// What a walk gives back: the files in order.
pub open spec fn listing(output: Seq<Seq<char>>, limit: usize) -> Seq<char> {
    truncated(
        if output.len() == 0 {
            "(empty)"@
        } else {
            text::join_text(text::sorted_texts(output), "\n"@)
        },
        limit,
    )
}

/// The end of a walk.
pub open spec fn walk_done(walk: WalkV, result: Result<Seq<char>, ErrorV>) -> (WalkV, WalkStepV) {
    (WalkV { phase: WalkPhaseV::Over, ..walk }, WalkStepV::Done { result })
}

/// A walk that goes on with the next entry, or ends where no directory is open.
pub open spec fn walk_on(walk: WalkV, limit: usize) -> (WalkV, WalkStepV) {
    if walk.depths.len() == 0 {
        walk_done(walk, Ok(listing(walk.output, limit)))
    } else {
        (WalkV { phase: WalkPhaseV::Listing, ..walk }, WalkStepV::NextEntry)
    }
}

/// A walk that goes into a directory of which `depth` levels are wanted.
pub open spec fn walk_into(walk: WalkV, depth: usize, limit: usize) -> (WalkV, WalkStepV) {
    if depth == 0 {
        walk_on(walk, limit)
    } else {
        (
            WalkV { depths: walk.depths.push(depth), phase: WalkPhaseV::Opening, ..walk },
            WalkStepV::Open,
        )
    }
}

/// A walk that lists an entry, and goes into it where it is a directory.
pub open spec fn walk_listed(
    walk: WalkV,
    relative: Seq<char>,
    directory: bool,
    limit: usize,
) -> (WalkV, WalkStepV) {
    let listed = WalkV { output: walk.output.push(text::forward_slashes(relative)), ..walk };
    if directory {
        walk_into(listed, (walk.depths.last() - 1) as usize, limit)
    } else {
        walk_on(listed, limit)
    }
}

/// The error of listing files.
pub open spec fn list_error(source: Seq<char>) -> ErrorV {
    ErrorV::Tool { tool: "list_files"@, message: source }
}

/// What an answer makes of a walk.
pub open spec fn walk_step(walk: WalkV, reply: WalkReplyV, limit: usize) -> (WalkV, WalkStepV) {
    match (walk.phase, reply) {
        (WalkPhaseV::Opening, WalkReplyV::Opened { result }) => match result {
            Ok(()) => walk_on(walk, limit),
            Err(source) => walk_done(walk, Err(list_error(source))),
        },
        (WalkPhaseV::Listing, WalkReplyV::End) => walk_on(
            WalkV { depths: walk.depths.drop_last(), ..walk },
            limit,
        ),
        (WalkPhaseV::Listing, WalkReplyV::Failed { source }) => walk_done(
            walk,
            Err(list_error(source)),
        ),
        (WalkPhaseV::Listing, WalkReplyV::Entry { name, relative, decision }) => if name is Some
            && is_skipped_name(name->0) {
            walk_on(walk, limit)
        } else {
            match decision {
                Err(error) => walk_done(
                    walk,
                    Err(
                        ErrorV::Tool {
                            tool: "permission"@,
                            message: permissions::permission_text(error),
                        },
                    ),
                ),
                Ok(Decision::Deny) => walk_on(walk, limit),
                Ok(_) => (
                    WalkV { phase: WalkPhaseV::Kind { relative }, ..walk },
                    WalkStepV::Kind,
                ),
            }
        },
        (WalkPhaseV::Kind { relative }, WalkReplyV::Kind { result }) => match result {
            Err(source) => walk_done(walk, Err(list_error(source))),
            Ok(kind) => if kind.symlink {
                (
                    WalkV {
                        phase: WalkPhaseV::Link { relative, directory: kind.directory },
                        ..walk
                    },
                    WalkStepV::Link,
                )
            } else {
                walk_listed(walk, relative, kind.directory, limit)
            },
        },
        (WalkPhaseV::Link { relative, directory }, WalkReplyV::Link { inside }) => if inside {
            walk_listed(walk, relative, directory, limit)
        } else {
            walk_on(walk, limit)
        },
        _ => walk_done(walk, Ok(listing(walk.output, limit))),
    }
}

/// Whether an answer is of the kind that a walk waits for.
pub open spec fn walk_fits(phase: WalkPhaseV, reply: WalkReply) -> bool {
    match phase {
        WalkPhaseV::Opening => reply is Opened,
        WalkPhaseV::Listing => reply is End || reply is Failed || reply is Entry,
        WalkPhaseV::Kind { .. } => reply is Kind,
        WalkPhaseV::Link { .. } => reply is Link,
        WalkPhaseV::Over => false,
    }
}

/// A walk is in order: while it goes on, a directory is open, and each open one may have a level.
pub open spec fn walk_in_order(walk: WalkV) -> bool {
    &&& walk.phase is Over || walk.depths.len() > 0
    &&& forall|i: int| 0 <= i < walk.depths.len() ==> #[trigger] walk.depths[i] > 0
}

/// A walk stays in order, and every directory that it opens is allowed fewer levels than the one
/// that it is in, so that it ends.
pub proof fn law_walk_stays_in_order(walk: WalkV, reply: WalkReplyV, limit: usize)
    requires
        walk_in_order(walk),
    ensures
        walk_in_order(walk_step(walk, reply, limit).0),
        walk_step(walk, reply, limit).1 is Open ==> {
            let depths = walk_step(walk, reply, limit).0.depths;
            &&& depths.len() == walk.depths.len() + 1
            &&& depths.last() < walk.depths.last()
        },
{
}

/// What a policy denies to read is not listed, nor is anything below it, and neither is a link that
/// leads out of the root.
pub proof fn law_denied_entries_are_hidden(walk: WalkV, reply: WalkReplyV, limit: usize)
    requires
        walk_step(walk, reply, limit).0.output != walk.output,
    ensures
        walk.phase is Kind || walk.phase is Link,
        walk.phase is Link ==> reply == (WalkReplyV::Link { inside: true }),
        walk.phase matches WalkPhaseV::Kind { relative } ==> walk_step(walk, reply, limit).0.output
            == walk.output.push(text::forward_slashes(relative)),
{
}

/// The kind of an entry is asked for only where the policy allows to read it.
pub proof fn law_only_allowed_entries_are_inspected(walk: WalkV, reply: WalkReplyV, limit: usize)
    requires
        walk_step(walk, reply, limit).1 is Kind,
    ensures
        reply matches WalkReplyV::Entry { name, relative, decision } && decision is Ok
            && decision->Ok_0 != Decision::Deny && !(name is Some && is_skipped_name(name->0)),
{
}

impl WorkspaceTools {
    /// Starts to list the files of a directory, `depth` levels deep.
    pub fn list_files(&self, depth: usize) -> (walk: (FileWalk, WalkStep))
        ensures
            (walk.0@, walk.1@) == walk_into(
                WalkV { output: seq![], depths: seq![], phase: WalkPhaseV::Over },
                depth,
                self.limit(),
            ),
            walk_in_order(walk.0@),
    {
        let mut walk = FileWalk {
            output: Vec::new(),
            depths: Vec::new(),
            phase: WalkPhase::Over,
        };
        assert(walk@.output == Seq::<Seq<char>>::empty());
        assert(walk@.depths == Seq::<usize>::empty());
        let step = self.go_into(&mut walk, depth);
        (walk, step)
    }

    fn go_on(&self, walk: &mut FileWalk) -> (step: WalkStep)
        ensures
            (final(walk)@, step@) == walk_on(old(walk)@, self.limit()),
    {
        if walk.depths.len() == 0 {
            walk.phase = WalkPhase::Over;
            let shown = if walk.output.len() == 0 {
                "(empty)".to_owned()
            } else {
                let mut output: Vec<String> = Vec::new();
                for i in 0..walk.output.len()
                    invariant
                        text::views(output@) == text::views(walk.output@).take(i as int),
                {
                    let ghost before = output@;
                    output.push(walk.output[i].clone());
                    assert(text::views(output@) == text::views(before).push(
                        walk.output@[i as int]@,
                    ));
                }
                assert(text::views(output@) == text::views(walk.output@));
                join(&sort(output), "\n")
            };
            WalkStep::Done { result: Ok(self.truncate(shown)) }
        } else {
            walk.phase = WalkPhase::Listing;
            WalkStep::NextEntry
        }
    }

    fn go_into(&self, walk: &mut FileWalk, depth: usize) -> (step: WalkStep)
        ensures
            (final(walk)@, step@) == walk_into(old(walk)@, depth, self.limit()),
    {
        if depth == 0 {
            self.go_on(walk)
        } else {
            walk.depths.push(depth);
            walk.phase = WalkPhase::Opening;
            WalkStep::Open
        }
    }

    fn list_entry(&self, walk: &mut FileWalk, relative: &str, directory: bool) -> (step: WalkStep)
        requires
            walk_in_order(old(walk)@),
            old(walk)@.depths.len() > 0,
        ensures
            (final(walk)@, step@) == walk_listed(
                old(walk)@,
                relative@,
                directory,
                self.limit(),
            ),
    {
        let shown = from_chars(forward_slashes_of(to_chars(relative).as_slice()).as_slice());
        let ghost before = walk.output@;
        walk.output.push(shown);
        assert(text::views(walk.output@) == text::views(before).push(shown@));
        if directory {
            let depth = walk.depths[walk.depths.len() - 1];
            self.go_into(walk, depth - 1)
        } else {
            self.go_on(walk)
        }
    }

    /// Goes on with a walk after what the file system answered.
    pub fn walk(&self, walk: &mut FileWalk, reply: WalkReply) -> (step: WalkStep)
        requires
            walk_in_order(old(walk)@),
            walk_fits(old(walk)@.phase, reply),
        ensures
            exists|decision: Result<Decision, PermissionErrorV>|
                {
                    &&& (reply matches WalkReply::Entry { relative, .. }
                        ==> permissions::reads_as(self.hidden(), relative@, decision))
                    &&& (final(walk)@, step@) == walk_step(
                        old(walk)@,
                        #[trigger] reply_view(reply, decision),
                        self.limit(),
                    )
                },
            walk_in_order(final(walk)@),
    {
        let ghost mut decision: Result<Decision, PermissionErrorV> = Ok(Decision::Allow);
        let step = match reply {
            WalkReply::Entry { name, relative } => {
                let judged = self.policy.read_decision(relative.as_str());
                proof {
                    decision = permissions::decision_result(judged);
                }
                self.visit(walk, name, relative, judged)
            },
            _ => {
                self.advance(walk, reply)
            },
        };
        proof {
            law_walk_stays_in_order(old(walk)@, reply_view(reply, decision), self.limit());
            assert((walk@, step@) == walk_step(
                old(walk)@,
                reply_view(reply, decision),
                self.limit(),
            ));
        }
        step
    }

    /// Goes on with a walk after an entry was judged.
    pub fn visit(
        &self,
        walk: &mut FileWalk,
        name: Option<String>,
        relative: String,
        decision: Result<Decision, PermissionError>,
    ) -> (step: WalkStep)
        requires
            walk_in_order(old(walk)@),
            old(walk)@.phase is Listing,
        ensures
            (final(walk)@, step@) == walk_step(
                old(walk)@,
                WalkReplyV::Entry {
                    name: protocol::optional_text(name),
                    relative: relative@,
                    decision: permissions::decision_result(decision),
                },
                self.limit(),
            ),
    {
        if let Some(name) = &name {
            if skipped_name(name.as_str()) {
                return self.go_on(walk);
            }
        }
        match decision {
            Err(error) => {
                walk.phase = WalkPhase::Over;
                WalkStep::Done { result: Err(tool_error("permission", error.describe())) }
            },
            Ok(Decision::Deny) => self.go_on(walk),
            Ok(_) => {
                walk.phase = WalkPhase::Kind { relative };
                WalkStep::Kind
            },
        }
    }

    fn advance(&self, walk: &mut FileWalk, reply: WalkReply) -> (step: WalkStep)
        requires
            walk_in_order(old(walk)@),
            walk_fits(old(walk)@.phase, reply),
            !(reply is Entry),
        ensures
            forall|decision: Result<Decision, PermissionErrorV>|
                (final(walk)@, step@) == walk_step(
                    old(walk)@,
                    #[trigger] reply_view(reply, decision),
                    self.limit(),
                ),
    {
        let mut phase = WalkPhase::Over;
        std::mem::swap(&mut walk.phase, &mut phase);
        match (phase, reply) {
            (WalkPhase::Opening, WalkReply::Opened { result }) => match result {
                Ok(()) => self.go_on(walk),
                Err(source) => WalkStep::Done { result: Err(tool_error("list_files", source)) },
            },
            (WalkPhase::Listing, WalkReply::End) => {
                let ghost depths = walk.depths@;
                let _ = walk.depths.pop();
                assert(walk.depths@ == depths.drop_last());
                self.go_on(walk)
            },
            (WalkPhase::Listing, WalkReply::Failed { source }) => WalkStep::Done {
                result: Err(tool_error("list_files", source)),
            },
            (WalkPhase::Kind { relative }, WalkReply::Kind { result }) => match result {
                Err(source) => WalkStep::Done { result: Err(tool_error("list_files", source)) },
                Ok(kind) => {
                    if kind.symlink {
                        walk.phase = WalkPhase::Link { relative, directory: kind.directory };
                        WalkStep::Link
                    } else {
                        self.list_entry(walk, relative.as_str(), kind.directory)
                    }
                },
            },
            (WalkPhase::Link { relative, directory }, WalkReply::Link { inside }) => {
                if inside {
                    self.list_entry(walk, relative.as_str(), directory)
                } else {
                    self.go_on(walk)
                }
            },
            _ => WalkStep::Done { result: Ok(String::new()) },
        }
    }

    /// The error of a directory that is none.
    pub fn not_a_directory(&self, requested: &str) -> (error: AgentError)
        ensures
            error@ == list_error("not a directory: "@ + requested@),
    {
        tool_error("list_files", cat2("not a directory: ", requested))
    }
}

/// A match that a search reported.
#[derive(Debug, Clone, PartialEq, Eq)]
pub struct SearchHit {
    pub path: String,
    pub line_number: u64,
    pub text: String,
}

/// A match that a search reported, in the model.
#[verifier::ext_equal]
pub struct HitV {
    pub path: Seq<char>,
    pub line_number: u64,
    pub text: Seq<char>,
}

impl View for SearchHit {
    type V = HitV;

    open spec fn view(&self) -> HitV {
        HitV { path: self.path@, line_number: self.line_number, text: self.text@ }
    }
}

/// What matches say.
pub open spec fn hit_views(hits: Seq<SearchHit>) -> Seq<HitV> {
    hits.map_values(|hit: SearchHit| hit@)
}

/// The match that an event of the search tells of, if it tells of one.
pub open spec fn event_hit(event: JsonV) -> Option<HitV> {
    let data = event.at("data"@);
    if event.at("type"@) != JsonV::Text("match"@) {
        None
    } else {
        match data.at("path"@).at("text"@).text() {
            None => None,
            Some(path) => Some(
                HitV {
                    path,
                    line_number: match data.at("line_number"@).unsigned() {
                        Some(n) => n,
                        None => 0,
                    },
                    text: text::trim_back(
                        CharSet::White,
                        match data.at("lines"@).at("text"@).text() {
                            Some(t) => t,
                            None => seq![],
                        },
                    ),
                },
            ),
        }
    }
}

/// The matches that the lines of a search's output tell of; lines that are no JSON tell of none.
pub open spec fn line_hits(lines: Seq<Seq<char>>) -> Seq<HitV>
    decreases lines.len(),
{
    if lines.len() == 0 {
        seq![]
    } else {
        let front = line_hits(lines.drop_last());
        match json::json_of_text(lines.last()) {
            Ok(event) => match event_hit(event) {
                Some(hit) => front.push(hit),
                None => front,
            },
            Err(_) => front,
        }
    }
}

/// The match that an event of the search tells of, if it tells of one.
pub fn read_hit(event: &Json) -> (hit: Option<SearchHit>)
    ensures
        match hit {
            Some(h) => event_hit(event@) == Some(h@),
            None => event_hit(event@) is None,
        },
{
    if !event.at("type").is_text("match") {
        return None;
    }
    let data = event.at("data");
    match data.at("path").at("text").as_str() {
        None => None,
        Some(path) => {
            let line_number: u64 = match data.at("line_number").as_u64() {
                Some(n) => n,
                None => 0,
            };
            let text = match data.at("lines").at("text").as_str() {
                Some(t) => from_chars(trim_back_of(CharSet::White, to_chars(t).as_slice())),
                None => {
                    let none = String::new();
                    assert(none@ == text::trim_back(CharSet::White, seq![]));
                    none
                },
            };
            Some(SearchHit { path: path.to_owned(), line_number, text })
        },
    }
}

/// What a search's end says: that it failed, or its matches.
pub open spec fn search_verdict(succeeded: bool, code: Option<i32>, stderr: Seq<u8>) -> Option<
    ErrorV,
> {
    if !succeeded && code != Some(1i32) {
        Some(ErrorV::Tool { tool: "search"@, message: text::lossy_text(stderr) })
    } else {
        None
    }
}

/// The matches of a search that ended, or its error; that nothing matched is no error.
pub fn search_hits(succeeded: bool, code: Option<i32>, stdout: &[u8], stderr: &[u8]) -> (hits: Result<
    Vec<SearchHit>,
    AgentError,
>)
    ensures
        match hits {
            Ok(h) => search_verdict(succeeded, code, stderr@) is None && hit_views(h@) == line_hits(
                text::lines(text::lossy_text(stdout@)),
            ),
            Err(e) => search_verdict(succeeded, code, stderr@) == Some(e@),
        },
{
    let no_match = match code {
        Some(code) => code == 1,
        None => false,
    };
    if !succeeded && !no_match {
        return Err(tool_error("search", utf8_lossy(stderr)));
    }
    let output = utf8_lossy(stdout);
    let chars = to_chars(output.as_str());
    let lines = lines_of(chars.as_slice());
    let ghost all = text::lines(output@);
    let mut hits: Vec<SearchHit> = Vec::new();
    assert(all.take(0) == Seq::<Seq<char>>::empty());
    for i in 0..lines.len()
        invariant
            text::slice_views(lines@) == all,
            hit_views(hits@) == line_hits(all.take(i as int)),
    {
        let ghost before = hits@;
        proof {
            assert(all.take(i + 1).drop_last() == all.take(i as int));
            assert(all.take(i + 1).last() == lines@[i as int]@);
        }
        let line = from_chars(lines[i]);
        if let Ok(event) = parse(line.as_str()) {
            if let Some(hit) = read_hit(&event) {
                hits.push(hit);
                assert(hit_views(hits@) == hit_views(before).push(hit@));
            }
        }
    }
    assert(all.take(lines.len() as int) == all);
    Ok(hits)
}

/// How a match is shown, at its path below the root.
pub open spec fn hit_line(hit: HitV, relative: Seq<char>) -> Seq<char> {
    text::forward_slashes(relative) + ":"@ + text::decimal_text(hit.line_number as nat) + ":"@
        + hit.text
}

/// The lines of the first `n` matches, each with its path below the root and the decision on
/// reading that; denied ones are left out, and a decision that failed ends them.
pub open spec fn hit_lines(
    hits: Seq<HitV>,
    relatives: Seq<Seq<char>>,
    decisions: Seq<Result<Decision, PermissionErrorV>>,
    n: nat,
) -> Result<Seq<Seq<char>>, ErrorV>
    decreases n,
{
    if n == 0 {
        Ok(seq![])
    } else {
        let i = n - 1;
        match hit_lines(hits, relatives, decisions, i as nat) {
            Err(error) => Err(error),
            Ok(front) => match decisions[i] {
                Err(error) => Err(
                    ErrorV::Tool {
                        tool: "permission"@,
                        message: permissions::permission_text(error),
                    },
                ),
                Ok(Decision::Deny) => Ok(front),
                Ok(_) => Ok(front.push(hit_line(hits[i], relatives[i]))),
            },
        }
    }
}

/// What a search gives back.
pub open spec fn search_output(lines: Result<Seq<Seq<char>>, ErrorV>, limit: usize) -> Result<
    Seq<char>,
    ErrorV,
> {
    match lines {
        Err(error) => Err(error),
        Ok(shown) => Ok(
            truncated(
                if shown.len() == 0 {
                    "(no matches)"@
                } else {
                    text::join_text(shown, "\n"@)
                },
                limit,
            ),
        ),
    }
}

proof fn lemma_hit_lines_agree(
    hits: Seq<HitV>,
    relatives: Seq<Seq<char>>,
    a: Seq<Result<Decision, PermissionErrorV>>,
    b: Seq<Result<Decision, PermissionErrorV>>,
    n: nat,
)
    requires
        forall|i: int| 0 <= i < n ==> #[trigger] a[i] == b[i],
    ensures
        hit_lines(hits, relatives, a, n) == hit_lines(hits, relatives, b, n),
    decreases n,
{
    if n > 0 {
        lemma_hit_lines_agree(hits, relatives, a, b, (n - 1) as nat);
        assert(a[n - 1] == b[n - 1]);
    }
}

impl WorkspaceTools {
    /// Shows the matches of a search, given the path of each below the root.
    pub fn search(&self, hits: &Vec<SearchHit>, relatives: &Vec<String>) -> (shown: Result<
        String,
        AgentError,
    >)
        requires
            relatives.len() == hits.len(),
        ensures
            exists|decisions: Seq<Result<Decision, PermissionErrorV>>|
                {
                    &&& decisions.len() == hits.len()
                    &&& forall|i: int|
                        0 <= i < hits.len() ==> permissions::reads_as(
                            self.hidden(),
                            relatives@[i]@,
                            #[trigger] decisions[i],
                        )
                    &&& error::text_result(shown) == search_output(
                        #[trigger] hit_lines(
                            hit_views(hits@),
                            text::views(relatives@),
                            decisions,
                            hits@.len(),
                        ),
                        self.limit(),
                    )
                },
    {
        let ghost found = hit_views(hits@);
        let ghost places = text::views(relatives@);
        let ghost mut decisions: Seq<Result<Decision, PermissionErrorV>> = seq![];
        let mut lines: Vec<String> = Vec::new();
        let mut error: Option<AgentError> = None;
        assert(text::views(lines@) == Seq::<Seq<char>>::empty());
        for i in 0..hits.len()
            invariant
                relatives.len() == hits.len(),
                found == hit_views(hits@),
                places == text::views(relatives@),
                decisions.len() == i,
                forall|j: int|
                    0 <= j < i ==> permissions::reads_as(
                        self.hidden(),
                        relatives@[j]@,
                        #[trigger] decisions[j],
                    ),
                match error {
                    None => hit_lines(found, places, decisions, i as nat) == Ok::<
                        Seq<Seq<char>>,
                        ErrorV,
                    >(text::views(lines@)),
                    Some(e) => hit_lines(found, places, decisions, i as nat) == Err::<
                        Seq<Seq<char>>,
                        ErrorV,
                    >(e@),
                },
        {
            let decision = self.policy.read_decision(relatives[i].as_str());
            let ghost judged = permissions::decision_result(decision);
            let ghost before = decisions;
            let ghost lines_before = lines@;
            proof {
                decisions = decisions.push(judged);
                lemma_hit_lines_agree(found, places, before, decisions, i as nat);
                assert forall|j: int| 0 <= j < i + 1 implies permissions::reads_as(
                    self.hidden(),
                    relatives@[j]@,
                    #[trigger] decisions[j],
                ) by {
                    if j < i {
                        assert(decisions[j] == before[j]);
                    }
                }
            }
            if error.is_none() {
                match decision {
                    Err(e) => {
                        error = Some(tool_error("permission", e.describe()));
                    },
                    Ok(Decision::Deny) => {},
                    Ok(_) => {
                        let hit = &hits[i];
                        let place = from_chars(
                            forward_slashes_of(to_chars(relatives[i].as_str()).as_slice()).as_slice(),
                        );
                        let line = cat5(
                            place.as_str(),
                            ":",
                            decimal(hit.line_number as u128).as_str(),
                            ":",
                            hit.text.as_str(),
                        );
                        lines.push(line);
                        assert(found[i as int] == hit@);
                        assert(places[i as int] == relatives@[i as int]@);
                        assert(text::views(lines@) == text::views(lines_before).push(line@));
                    },
                }
            }
        }
        let shown = match error {
            Some(error) => Err(error),
            None => Ok(
                self.truncate(
                    if lines.len() == 0 {
                        "(no matches)".to_owned()
                    } else {
                        join(&lines, "\n")
                    },
                ),
            ),
        };
        assert(error::text_result(shown) == search_output(
            hit_lines(found, places, decisions, hits@.len()),
            self.limit(),
        ));
        shown
    }
}

/// The type of a property of an argument.
pub open spec fn type_json(name: Seq<char>) -> JsonV {
    JsonV::Object(map!["type"@ => JsonV::Text(name)])
}

/// What the list tool says of itself.
pub open spec fn list_files_spec() -> ToolSpecV {
    ToolSpecV {
        name: "list_files"@,
        description: "List workspace files recursively"@,
        input_schema: JsonV::Object(
            map![
                "type"@ => JsonV::Text("object"@),
                "properties"@ => JsonV::Object(
                    map![
                        "path"@ => type_json("string"@),
                        "depth"@ => JsonV::Object(
                            map![
                                "type"@ => JsonV::Text("integer"@),
                                "minimum"@ => json::unsigned_json(1),
                                "maximum"@ => json::unsigned_json(8),
                            ],
                        ),
                    ],
                ),
                "additionalProperties"@ => JsonV::Bool(false),
            ],
        ),
    }
}

/// What the read tool says of itself.
pub open spec fn read_file_spec() -> ToolSpecV {
    ToolSpecV {
        name: "read_file"@,
        description: "Read a line range from a UTF-8 workspace file"@,
        input_schema: JsonV::Object(
            map![
                "type"@ => JsonV::Text("object"@),
                "properties"@ => JsonV::Object(
                    map![
                        "path"@ => type_json("string"@),
                        "startLine"@ => type_json("integer"@),
                        "endLine"@ => type_json("integer"@),
                    ],
                ),
                "required"@ => JsonV::Array(seq![JsonV::Text("path"@)]),
                "additionalProperties"@ => JsonV::Bool(false),
            ],
        ),
    }
}

/// What the search tool says of itself.
pub open spec fn search_spec() -> ToolSpecV {
    ToolSpecV {
        name: "search"@,
        description: "Search workspace text with a regular expression"@,
        input_schema: JsonV::Object(
            map![
                "type"@ => JsonV::Text("object"@),
                "properties"@ => JsonV::Object(
                    map![
                        "pattern"@ => type_json("string"@),
                        "path"@ => type_json("string"@),
                    ],
                ),
                "required"@ => JsonV::Array(seq![JsonV::Text("pattern"@)]),
                "additionalProperties"@ => JsonV::Bool(false),
            ],
        ),
    }
}

fn typed(name: &str) -> (property: Json)
    ensures
        property@ == type_json(name@),
{
    let mut entry: Vec<(String, Json)> = Vec::new();
    put(&mut entry, "type", Json::text(name));
    Json::Object(entry)
}

fn one_text(text: &str) -> (list: Json)
    ensures
        list@ == JsonV::Array(seq![JsonV::Text(text@)]),
{
    let mut items: Vec<Json> = Vec::new();
    add_item(&mut items, Json::text(text));
    assert(json::array_view(items@) == seq![JsonV::Text(text@)]);
    Json::Array(items)
}

fn object_schema(properties: Vec<(String, Json)>, required: Option<&str>) -> (schema: Json)
    ensures
        schema@ == JsonV::Object(
            match required {
                Some(name) => map![
                    "type"@ => JsonV::Text("object"@),
                    "properties"@ => JsonV::Object(json::entries_view(properties@)),
                    "required"@ => JsonV::Array(seq![JsonV::Text(name@)]),
                    "additionalProperties"@ => JsonV::Bool(false),
                ],
                None => map![
                    "type"@ => JsonV::Text("object"@),
                    "properties"@ => JsonV::Object(json::entries_view(properties@)),
                    "additionalProperties"@ => JsonV::Bool(false),
                ],
            },
        ),
{
    let mut schema: Vec<(String, Json)> = Vec::new();
    put(&mut schema, "type", Json::text("object"));
    put(&mut schema, "properties", Json::Object(properties));
    if let Some(name) = required {
        put(&mut schema, "required", one_text(name));
    }
    put(&mut schema, "additionalProperties", Json::Bool(false));
    Json::Object(schema)
}

impl WorkspaceTools {
    /// The tools that look at a workspace.
    pub fn specs(&self) -> (list: Vec<ToolSpec>)
        ensures
            protocol::spec_views(list@) == seq![list_files_spec(), read_file_spec(), search_spec()],
    {
        let mut depth: Vec<(String, Json)> = Vec::new();
        put(&mut depth, "type", Json::text("integer"));
        put(&mut depth, "minimum", Json::unsigned(1));
        put(&mut depth, "maximum", Json::unsigned(8));
        let mut listed: Vec<(String, Json)> = Vec::new();
        put(&mut listed, "path", typed("string"));
        put(&mut listed, "depth", Json::Object(depth));
        let list_files = ToolSpec {
            name: "list_files".to_owned(),
            description: "List workspace files recursively".to_owned(),
            input_schema: object_schema(listed, None),
        };
        let mut range: Vec<(String, Json)> = Vec::new();
        put(&mut range, "path", typed("string"));
        put(&mut range, "startLine", typed("integer"));
        put(&mut range, "endLine", typed("integer"));
        let read_file = ToolSpec {
            name: "read_file".to_owned(),
            description: "Read a line range from a UTF-8 workspace file".to_owned(),
            input_schema: object_schema(range, Some("path")),
        };
        let mut sought: Vec<(String, Json)> = Vec::new();
        put(&mut sought, "pattern", typed("string"));
        put(&mut sought, "path", typed("string"));
        let search = ToolSpec {
            name: "search".to_owned(),
            description: "Search workspace text with a regular expression".to_owned(),
            input_schema: object_schema(sought, Some("pattern")),
        };
        assert(list_files@ == list_files_spec());
        assert(read_file@ == read_file_spec());
        assert(search@ == search_spec());
        let mut list: Vec<ToolSpec> = Vec::new();
        list.push(list_files);
        list.push(read_file);
        list.push(search);
        assert(protocol::spec_views(list@) == seq![
            list_files_spec(),
            read_file_spec(),
            search_spec(),
        ]);
        list
    }
}

/// Whether a tool only looks at a workspace.
pub open spec fn only_looks(tool: Seq<char>) -> bool {
    tool == "list_files"@ || tool == "read_file"@ || tool == "search"@
}

/// Approves the tools that only look at a workspace.
pub struct ReadOnlyApproval;

impl ReadOnlyApproval {
    /// Whether a tool may run.
    pub fn approve(&self, tool: &str) -> (approved: bool)
        ensures
            approved == only_looks(tool@),
    {
        same_text(tool, "list_files") || same_text(tool, "read_file") || same_text(tool, "search")
    }
}

/// Whether a tool may run in a mode: one that only looks at a workspace always, and one of a server
/// where things are built and everything was confirmed beforehand.
pub open spec fn may_run(mode: Mode, confirmed: bool, served: bool, tool: Seq<char>) -> bool {
    only_looks(tool) || mode == Mode::Build && confirmed && served
}

/// Decides whether a tool may run.
pub fn approves(mode: Mode, confirmed: bool, served: bool, tool: &str) -> (approved: bool)
    ensures
        approved == may_run(mode, confirmed, served, tool@),
{
    ReadOnlyApproval.approve(tool) || matches!(mode, Mode::Build) && confirmed && served
}

/// Planning and reviewing only read, whatever was confirmed: nothing runs there but the tools that
/// look at a workspace.
pub proof fn law_plan_and_review_only_read(
    mode: Mode,
    confirmed: bool,
    served: bool,
    tool: Seq<char>,
)
    requires
        mode == Mode::Plan || mode == Mode::Review,
    ensures
        may_run(mode, confirmed, served, tool) == only_looks(tool),
{
}

/// Every tool that looks at a workspace is one that can be planned for: none of them is unknown.
pub proof fn law_offered_tools_are_known(args: JsonV, tool: Seq<char>)
    requires
        tool == list_files_spec().name || tool == read_file_spec().name || tool
            == search_spec().name,
    ensures
        call_plan(tool, args) matches Err(error) ==> error == (ErrorV::Tool {
            tool: "path"@,
            message: "missing string argument"@,
        }) || error == (ErrorV::Tool {
            tool: "pattern"@,
            message: "missing string argument"@,
        }),
{
}

/// What the read tool shows of a file is its lines, from the first that is asked for to the last one
/// or the end: each as its number, a colon, a blank and exactly the characters of that line. It is
/// cut only where it is longer than the limit, and says so where there is nothing to show.
pub proof fn law_lines_are_shown_as_they_are(
    data: Seq<char>,
    start: Option<u64>,
    end: Option<u64>,
    limit: usize,
    from: nat,
    to: nat,
    shown: Seq<Seq<char>>,
)
    requires
        text::lines(data).len() <= usize::MAX,
        match start {
            Some(n) => n <= usize::MAX && from == if n == 0 {
                1
            } else {
                n as nat
            },
            None => from == 1,
        },
        ({
            let asked = match end {
                Some(n) => n as nat,
                None => from + 399,
            };
            let count = text::lines(data).len();
            &&& end matches Some(n) ==> n <= usize::MAX
            &&& to == if asked < count {
                asked
            } else {
                count
            }
        }),
        shown.len() == if from <= to {
            to - from + 1
        } else {
            0
        },
        forall|k: int|
            0 <= k < shown.len() ==> #[trigger] shown[k] == text::decimal_text((from + k) as nat)
                + ": "@ + text::lines(data)[from + k - 1],
    ensures
        ({
            let output = read_output(data, start, end, limit);
            let whole = text::join_text(shown, "\n"@);
            &&& from <= to && whole.len() <= limit ==> output == whole
            &&& from <= to && whole.len() > limit ==> output == whole.take(limit as int)
                + "\n… output truncated"@
            &&& from == to + 1 && limit >= 7 ==> output == "(empty)"@
            &&& from > to + 1 ==> output == "(no lines)"@
        }),
{
    let lines = text::lines(data);
    let first = first_line(start);
    let last = last_line(first, end, lines.len());
    assert(first == from);
    assert(last == to);
    assert(numbered_lines(lines, from, to) == shown);
    reveal_strlit("(empty)");
    reveal_strlit(": ");
    reveal_strlit("\n");
    if shown.len() > 0 {
        let whole = text::join_text(shown, "\n"@);
        assert(shown[0].len() >= 2);
        if shown.len() > 1 {
            assert(whole.len() >= 1);
        }
    }
}

/// Every match that may be read is shown, in the order of the matches: as its path below the root,
/// its line and its text, with colons between. Where no decision fails, nothing else is shown and
/// none is left out.
pub proof fn law_every_match_is_shown(
    hits: Seq<HitV>,
    relatives: Seq<Seq<char>>,
    decisions: Seq<Result<Decision, PermissionErrorV>>,
    n: nat,
) -> (kept: Seq<int>)
    requires
        forall|i: int| 0 <= i < n ==> #[trigger] decisions[i] is Ok,
    ensures
        forall|k: int, l: int|
            0 <= k < l < kept.len() ==> (#[trigger] kept[k]) < (#[trigger] kept[l]),
        forall|k: int|
            0 <= k < kept.len() ==> 0 <= (#[trigger] kept[k]) < n && decisions[kept[k]] != Ok::<
                Decision,
                PermissionErrorV,
            >(Decision::Deny),
        forall|i: int|
            0 <= i < n && #[trigger] decisions[i] != Ok::<Decision, PermissionErrorV>(
                Decision::Deny,
            ) ==> kept.contains(i),
        hit_lines(hits, relatives, decisions, n) matches Ok(lines) && {
            &&& lines.len() == kept.len()
            &&& forall|k: int|
                0 <= k < lines.len() ==> #[trigger] lines[k] == text::forward_slashes(
                    relatives[kept[k]],
                ) + ":"@ + text::decimal_text(hits[kept[k]].line_number as nat) + ":"@
                    + hits[kept[k]].text
        },
    decreases n,
{
    if n == 0 {
        seq![]
    } else {
        let last = n - 1;
        let front = law_every_match_is_shown(hits, relatives, decisions, last as nat);
        assert(decisions[last] is Ok);
        if decisions[last] == Ok::<Decision, PermissionErrorV>(Decision::Deny) {
            front
        } else {
            let kept = front.push(last);
            assert forall|i: int|
                0 <= i < n && #[trigger] decisions[i] != Ok::<Decision, PermissionErrorV>(
                    Decision::Deny,
                ) implies kept.contains(i) by {
                if i == last {
                    assert(kept[front.len() as int] == last);
                } else {
                    let k = front.index_of(i);
                    assert(kept[k] == i);
                }
            }
            kept
        }
    }
}

/// Where a decision on reading fails, the search fails with it: with the first that does.
pub proof fn law_failed_decisions_end_searches(
    hits: Seq<HitV>,
    relatives: Seq<Seq<char>>,
    decisions: Seq<Result<Decision, PermissionErrorV>>,
    i: nat,
    n: nat,
    limit: usize,
)
    requires
        i < n,
        decisions[i as int] is Err,
        forall|j: int| 0 <= j < i ==> #[trigger] decisions[j] is Ok,
    ensures
        search_output(hit_lines(hits, relatives, decisions, n), limit) == Err::<Seq<char>, ErrorV>(
            ErrorV::Tool {
                tool: "permission"@,
                message: permissions::permission_text(decisions[i as int]->Err_0),
            },
        ),
    decreases n,
{
    if i + 1 < n {
        law_failed_decisions_end_searches(hits, relatives, decisions, i, (n - 1) as nat, limit);
    } else {
        let kept = law_every_match_is_shown(hits, relatives, decisions, i);
    }
}

/// A search gives back the lines of its matches, one below the other; it is cut only where that is
/// longer than the limit, and says so where nothing matched.
pub proof fn law_matches_are_given_back(lines: Seq<Seq<char>>, limit: usize)
    ensures
        ({
            let whole = text::join_text(lines, "\n"@);
            let output = search_output(Ok(lines), limit);
            &&& lines.len() > 0 && whole.len() <= limit ==> output == Ok::<Seq<char>, ErrorV>(whole)
            &&& lines.len() > 0 && whole.len() > limit ==> output == Ok::<Seq<char>, ErrorV>(
                whole.take(limit as int) + "\n… output truncated"@,
            )
            &&& lines.len() == 0 && limit >= 12 ==> output == Ok::<Seq<char>, ErrorV>(
                "(no matches)"@,
            )
        }),
{
    reveal_strlit("(no matches)");
}

/// The output of a search is read line by line: what two runs of lines tell of is what each of them
/// tells of, one after the other, and a line tells of a match exactly where it is a match event with
/// a path.
pub proof fn law_search_output_is_read_line_by_line(
    front: Seq<Seq<char>>,
    back: Seq<Seq<char>>,
    line: Seq<char>,
)
    ensures
        line_hits(front + back) == line_hits(front) + line_hits(back),
        line_hits(seq![line]).len() <= 1,
        line_hits(seq![line]).len() == 1 <==> (json::json_of_text(line) matches Ok(event)
            && event.at("type"@) == JsonV::Text("match"@) && event.at("data"@).at("path"@).at(
            "text"@,
        ) is Text),
    decreases back.len(),
{
    if back.len() > 0 {
        law_search_output_is_read_line_by_line(front, back.drop_last(), line);
        assert((front + back).drop_last() == front + back.drop_last());
        assert((front + back).last() == back.last());
        assert(line_hits(front + back) == line_hits(front) + line_hits(back));
    } else {
        assert(front + back == front);
        assert(line_hits(front) + line_hits(back) == line_hits(front));
    }
    assert(seq![line].drop_last() == Seq::<Seq<char>>::empty());
    assert(seq![line].last() == line);
    reveal_with_fuel(line_hits, 2);
}

/// A match event is taken over as it is: its path, its line number, and its text but for the white
/// space at the end.
pub proof fn law_matches_are_taken_over(event: JsonV, path: Seq<char>, said: Seq<char>)
    requires
        event.at("type"@) == JsonV::Text("match"@),
        event.at("data"@).at("path"@).at("text"@) == JsonV::Text(path),
        event.at("data"@).at("lines"@).at("text"@) == JsonV::Text(said),
    ensures
        event_hit(event) matches Some(hit) && {
            &&& hit.path == path
            &&& event.at("data"@).at("line_number"@).unsigned() matches Some(number)
                ==> hit.line_number == number
            &&& hit.text.is_prefix_of(said)
            &&& forall|i: int|
                hit.text.len() <= i < said.len() ==> text::is_white_space(#[trigger] said[i])
            &&& hit.text.len() > 0 ==> !text::is_white_space(hit.text.last())
        },
{
    text::lemma_trim_back(CharSet::White, said);
}

/// A search that failed tells what it wrote about that; one that found nothing did not fail.
pub proof fn law_failed_searches_are_told(succeeded: bool, code: Option<i32>, stderr: Seq<u8>)
    ensures
        succeeded || code == Some(1i32) ==> search_verdict(succeeded, code, stderr) is None,
        !succeeded && code != Some(1i32) ==> search_verdict(succeeded, code, stderr) == Some(
            ErrorV::Tool { tool: "search"@, message: text::lossy_text(stderr) },
        ),
{
}

/// An entry that a walk gets to is listed: unless its name is one of those that are passed over, its
/// kind is asked for; a file or a directory is then listed at its path with forward slashes, a link
/// first has to lead inside, and a directory is opened as long as levels are left.
pub proof fn law_walks_list_what_they_find(walk: WalkV, reply: WalkReplyV, limit: usize)
    requires
        walk.depths.len() > 0,
        walk.depths.last() > 0,
    ensures
        ({
            let (next, step) = walk_step(walk, reply, limit);
            let listed = |relative: Seq<char>, directory: bool|
                {
                    &&& next.output == walk.output.push(text::forward_slashes(relative))
                    &&& directory && walk.depths.last() > 1 ==> step is Open && next.depths
                        == walk.depths.push((walk.depths.last() - 1) as usize)
                    &&& !directory || walk.depths.last() == 1 ==> step is NextEntry && next.depths
                        == walk.depths
                };
            &&& walk.phase is Listing ==> (reply matches WalkReplyV::Entry {
                name,
                relative,
                decision,
            } ==> {
                let passed = name == Some(".git"@) || name == Some(".codehelm"@) || name == Some(
                    "node_modules"@,
                ) || name == Some("target"@) || name == Some("dist"@) || name == Some("build"@);
                &&& next.output == walk.output
                &&& next.depths == walk.depths
                &&& passed || decision == Ok::<Decision, PermissionErrorV>(Decision::Deny) ==> step
                    is NextEntry && next.phase is Listing
                &&& !passed && decision is Ok && decision != Ok::<Decision, PermissionErrorV>(
                    Decision::Deny,
                ) ==> step is Kind && next.phase == (WalkPhaseV::Kind { relative })
                &&& !passed && decision is Err ==> (step matches WalkStepV::Done { result }
                    && result is Err)
            })
            &&& walk.phase matches WalkPhaseV::Kind { relative } ==> (
            reply matches WalkReplyV::Kind { result: Ok(kind) } ==> if kind.symlink {
                &&& step is Link
                &&& next.phase == (WalkPhaseV::Link { relative, directory: kind.directory })
                &&& next.output == walk.output
                &&& next.depths == walk.depths
            } else {
                listed(relative, kind.directory)
            })
            &&& walk.phase matches WalkPhaseV::Link { relative, directory } ==> {
                &&& reply == (WalkReplyV::Link { inside: true }) ==> listed(relative, directory)
                &&& reply == (WalkReplyV::Link { inside: false }) ==> next.output == walk.output
                    && step is NextEntry
            }
        }),
{
}

/// A walk that went through all of a directory goes on with the one above it, and where there is
/// none gives back what it listed: all of it, in order, a line each, cut only where that is longer
/// than the limit. Whatever cannot be listed ends it with an error.
pub proof fn law_walks_give_back_what_they_listed(walk: WalkV, reply: WalkReplyV, limit: usize)
    requires
        walk.depths.len() > 0,
    ensures
        ({
            let (next, step) = walk_step(walk, reply, limit);
            let whole = text::join_text(text::sorted_texts(walk.output), "\n"@);
            &&& next.output.len() >= walk.output.len()
            &&& walk.phase is Listing && reply is End ==> {
                &&& next.output == walk.output
                &&& next.depths == walk.depths.drop_last()
                &&& walk.depths.len() > 1 ==> step is NextEntry
                &&& walk.depths.len() == 1 && walk.output.len() > 0 && whole.len() <= limit ==> step
                    == (WalkStepV::Done { result: Ok(whole) })
                &&& walk.depths.len() == 1 && walk.output.len() > 0 && whole.len() > limit ==> step
                    == (WalkStepV::Done {
                    result: Ok(whole.take(limit as int) + "\n… output truncated"@),
                })
                &&& walk.depths.len() == 1 && walk.output.len() == 0 && limit >= 7 ==> step == (
                WalkStepV::Done { result: Ok("(empty)"@) })
            }
            &&& walk.phase is Listing ==> (reply matches WalkReplyV::Failed { source } ==> step == (
            WalkStepV::Done {
                result: Err(ErrorV::Tool { tool: "list_files"@, message: source }),
            }))
            &&& walk.phase is Opening ==> (reply matches WalkReplyV::Opened { result: Err(source) }
                ==> step == (WalkStepV::Done {
                result: Err(ErrorV::Tool { tool: "list_files"@, message: source }),
            }))
            &&& walk.phase is Opening ==> (reply matches WalkReplyV::Opened { result: Ok(()) }
                ==> step is NextEntry && next.output == walk.output && next.depths == walk.depths)
            &&& walk.phase is Kind ==> (reply matches WalkReplyV::Kind { result: Err(source) }
                ==> step == (WalkStepV::Done {
                result: Err(ErrorV::Tool { tool: "list_files"@, message: source }),
            }))
        }),
{
    reveal_strlit("(empty)");
}

/// What a call asks for is what its arguments say: the path or the pattern as it was given, the
/// lines that were asked for, a depth of three where none is given and of eight at most.
pub proof fn law_plans_follow_arguments(args: JsonV)
    ensures
        call_plan("list_files"@, args) matches Ok(ToolPlanV::ListFiles { path, depth }) && {
            &&& args.at("path"@) matches JsonV::Text(given) ==> path == given
            &&& !(args.at("path"@) is Text) ==> path == "."@
            &&& args.at("depth"@).unsigned() is None ==> depth == 3
            &&& args.at("depth"@).unsigned() matches Some(given) ==> depth == if given < 8 {
                given as int
            } else {
                8
            }
        },
        args.at("path"@) matches JsonV::Text(path) ==> call_plan("read_file"@, args) == Ok::<
            ToolPlanV,
            ErrorV,
        >(
            ToolPlanV::ReadFile {
                path,
                start: args.at("startLine"@).unsigned(),
                end: args.at("endLine"@).unsigned(),
            },
        ),
        !(args.at("path"@) is Text) ==> call_plan("read_file"@, args) == Err::<ToolPlanV, ErrorV>(
            ErrorV::Tool { tool: "path"@, message: "missing string argument"@ },
        ),
        args.at("pattern"@) matches JsonV::Text(given) ==> (call_plan("search"@, args) matches Ok(
            ToolPlanV::Search { pattern, path },
        ) && pattern == given && (args.at("path"@) matches JsonV::Text(below) ==> path == below)
            && (!(args.at("path"@) is Text) ==> path == "."@)),
        !(args.at("pattern"@) is Text) ==> call_plan("search"@, args) == Err::<ToolPlanV, ErrorV>(
            ErrorV::Tool { tool: "pattern"@, message: "missing string argument"@ },
        ),
{
    reveal_strlit("list_files");
    reveal_strlit("read_file");
    reveal_strlit("search");
    assert("list_files"@.len() == 10 && "read_file"@.len() == 9 && "search"@.len() == 6);
}

/// A tool that is not one of those that look at a workspace is refused by its name.
pub proof fn law_unknown_tools_are_refused(tool: Seq<char>, args: JsonV)
    requires
        tool != "list_files"@,
        tool != "read_file"@,
        tool != "search"@,
    ensures
        call_plan(tool, args) == Err::<ToolPlanV, ErrorV>(
            ErrorV::Tool { tool, message: "unknown or unavailable tool"@ },
        ),
        !only_looks(tool),
{
}

/// A path is admitted exactly where reading it was judged and not denied; a denial names it.
pub proof fn law_denied_paths_are_not_admitted(
    requested: Seq<char>,
    decision: Result<Decision, PermissionErrorV>,
)
    ensures
        admission(requested, decision) is Ok <==> decision is Ok && decision != Ok::<
            Decision,
            PermissionErrorV,
        >(Decision::Deny),
        decision == Ok::<Decision, PermissionErrorV>(Decision::Deny) ==> admission(
            requested,
            decision,
        ) == Err::<(), ErrorV>(
            ErrorV::Tool { tool: "permission"@, message: "read denied: "@ + requested },
        ),
        decision matches Err(error) ==> admission(requested, decision) == Err::<(), ErrorV>(
            ErrorV::Tool {
                tool: "permission"@,
                message: permissions::permission_text(error),
            },
        ),
{
}

/// A tool runs where it may: one that only looks at a workspace always, any other only where things
/// are built, everything was confirmed beforehand and a server has it.
pub proof fn law_tools_run_where_they_may(
    mode: Mode,
    confirmed: bool,
    served: bool,
    tool: Seq<char>,
)
    ensures
        may_run(mode, confirmed, served, tool) <==> {
            ||| tool == "list_files"@
            ||| tool == "read_file"@
            ||| tool == "search"@
            ||| mode == Mode::Build && confirmed && served
        },
{
}

/// Directories of tools and of what they make are never listed, and every other name is.
pub proof fn law_made_directories_are_skipped(name: Seq<char>)
    ensures
        is_skipped_name(name) <==> seq![
            ".git"@,
            ".codehelm"@,
            "node_modules"@,
            "target"@,
            "dist"@,
            "build"@,
        ].contains(name),
{
    let names = seq![".git"@, ".codehelm"@, "node_modules"@, "target"@, "dist"@, "build"@];
    assert(names.len() == 6);
    assert(names.contains(names[0]) && names.contains(names[1]) && names.contains(names[2])
        && names.contains(names[3]) && names.contains(names[4]) && names.contains(names[5]));
}

/// What a tool says that it requires is what a call of it is refused without: the path for a read,
/// the pattern for a search, and nothing for a list. No tool takes other arguments than it says.
pub proof fn law_required_arguments_are_told(args: JsonV, key: Seq<char>)
    ensures
        read_file_spec().input_schema.at("required"@) == JsonV::Array(seq![JsonV::Text("path"@)]),
        call_plan(read_file_spec().name, args) is Err <==> args.at("path"@).text() is None,
        search_spec().input_schema.at("required"@) == JsonV::Array(seq![JsonV::Text("pattern"@)]),
        call_plan(search_spec().name, args) is Err <==> args.at("pattern"@).text() is None,
        list_files_spec().input_schema.get("required"@) is None,
        call_plan(list_files_spec().name, args) is Ok,
        read_file_spec().input_schema.at("properties"@).get(key) is Some <==> key == "path"@ || key
            == "startLine"@ || key == "endLine"@,
        search_spec().input_schema.at("properties"@).get(key) is Some <==> key == "pattern"@ || key
            == "path"@,
        list_files_spec().input_schema.at("properties"@).get(key) is Some <==> key == "path"@ || key
            == "depth"@,
        read_file_spec().input_schema.at("properties"@).at("path"@).at("type"@) == JsonV::Text(
            "string"@,
        ),
        search_spec().input_schema.at("properties"@).at("pattern"@).at("type"@) == JsonV::Text(
            "string"@,
        ),
        read_file_spec().input_schema.at("additionalProperties"@) == JsonV::Bool(false),
        search_spec().input_schema.at("additionalProperties"@) == JsonV::Bool(false),
        list_files_spec().input_schema.at("additionalProperties"@) == JsonV::Bool(false),
{
    reveal_strlit("type");
    reveal_strlit("properties");
    reveal_strlit("required");
    reveal_strlit("additionalProperties");
    assert("type"@.len() == 4 && "properties"@.len() == 10 && "required"@.len() == 8
        && "additionalProperties"@.len() == 20);
    reveal_strlit("path");
    reveal_strlit("startLine");
    reveal_strlit("endLine");
    reveal_strlit("pattern");
    assert("path"@.len() == 4 && "startLine"@.len() == 9 && "endLine"@.len() == 7
        && "pattern"@.len() == 7);
    reveal_strlit("list_files");
    reveal_strlit("read_file");
    reveal_strlit("search");
    assert("list_files"@.len() == 10 && "read_file"@.len() == 9 && "search"@.len() == 6);
}

} // verus!
