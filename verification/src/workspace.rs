//! Where a project is, and the instructions that it gives to agents.
use vstd::prelude::*;

use crate::paths;
use crate::paths::{inside, show_relative, PartV, PathPart};
use crate::text;
use crate::text::{cat2, cat3, cat4, decimal, join, to_chars};

verus! {

/// Why a workspace or its instructions could not be found.
#[derive(Debug, Clone, PartialEq, Eq)]
pub enum WorkspaceError {
    Resolve { path: String, source: String },
    Outside { root: String, cwd: String },
    InstructionEscape(String),
    Read { path: String, source: String },
    TooLarge { limit: usize },
}

/// What a workspace error says.
#[verifier::ext_equal]
pub enum WorkspaceErrorV {
    Resolve { path: Seq<char>, source: Seq<char> },
    Outside { root: Seq<char>, cwd: Seq<char> },
    InstructionEscape(Seq<char>),
    Read { path: Seq<char>, source: Seq<char> },
    TooLarge { limit: usize },
}

impl View for WorkspaceError {
    type V = WorkspaceErrorV;

    open spec fn view(&self) -> WorkspaceErrorV {
        match *self {
            WorkspaceError::Resolve { path, source } => WorkspaceErrorV::Resolve {
                path: path@,
                source: source@,
            },
            WorkspaceError::Outside { root, cwd } => WorkspaceErrorV::Outside {
                root: root@,
                cwd: cwd@,
            },
            WorkspaceError::InstructionEscape(path) => WorkspaceErrorV::InstructionEscape(path@),
            WorkspaceError::Read { path, source } => WorkspaceErrorV::Read {
                path: path@,
                source: source@,
            },
            WorkspaceError::TooLarge { limit } => WorkspaceErrorV::TooLarge { limit },
        }
    }
}

/// The message that a workspace error shows.
pub open spec fn workspace_error_text(error: WorkspaceErrorV) -> Seq<char> {
    match error {
        WorkspaceErrorV::Resolve { path, source } => "failed to resolve workspace path "@ + path
            + ": "@ + source,
        WorkspaceErrorV::Outside { root, cwd } => "working directory "@ + cwd
            + " is outside workspace "@ + root,
        WorkspaceErrorV::InstructionEscape(path) => "instruction file escapes workspace: "@ + path,
        WorkspaceErrorV::Read { path, source } => "failed to read instruction file "@ + path
            + ": "@ + source,
        WorkspaceErrorV::TooLarge { limit } => "project instructions exceed the configured "@
            + text::decimal_text(limit as nat) + " character limit"@,
    }
}

impl WorkspaceError {
    /// The message that this error shows.
    pub fn describe(&self) -> (message: String)
        ensures
            message@ == workspace_error_text(self@),
    {
        match self {
            WorkspaceError::Resolve { path, source } => cat4(
                "failed to resolve workspace path ",
                path.as_str(),
                ": ",
                source.as_str(),
            ),
            WorkspaceError::Outside { root, cwd } => cat4(
                "working directory ",
                cwd.as_str(),
                " is outside workspace ",
                root.as_str(),
            ),
            WorkspaceError::InstructionEscape(path) => cat2(
                "instruction file escapes workspace: ",
                path.as_str(),
            ),
            WorkspaceError::Read { path, source } => cat4(
                "failed to read instruction file ",
                path.as_str(),
                ": ",
                source.as_str(),
            ),
            WorkspaceError::TooLarge { limit } => cat3(
                "project instructions exceed the configured ",
                decimal(*limit as u128).as_str(),
                " character limit",
            ),
        }
    }
}

/// What marks a directory as the root of a project.
#[derive(Debug, Clone, Copy, PartialEq, Eq, Structural)]
pub struct Marks {
    /// It has a `.codehelm/config.json` file.
    pub config: bool,
    /// It has a `.git`.
    pub git: bool,
}

/// What to do to find the root of a project.
#[derive(Debug, Clone, Copy, PartialEq, Eq, Structural)]
pub enum SearchStep {
    /// Look at the directory that is so many parents up from the start.
    Look { ancestor: usize },
    /// Nothing: the directory that is so many parents up is the root.
    Found { ancestor: usize },
}

/// Whether a directory is marked as the root of a project.
pub open spec fn is_marked(marks: Marks) -> bool {
    marks.config || marks.git
}

/// The root of a project, given the marks of the start and of its ancestors, in that order: the
/// nearest that is marked, or the start where none is.
pub open spec fn project_root(marks: Seq<Marks>, from: nat) -> nat
    decreases marks.len() - from,
{
    if from >= marks.len() {
        0
    } else if is_marked(marks[from as int]) {
        from
    } else {
        project_root(marks, from + 1)
    }
}

/// A search for the root of a project.
pub struct WorkspaceSearch {
    ancestor: usize,
}

/// Starts the search for the root of a project from a directory that the file system resolved or
/// failed to.
pub fn discover_workspace(start: &str, resolved: Result<(), String>) -> (search: Result<
    WorkspaceSearch,
    WorkspaceError,
>)
    ensures
        match resolved {
            Ok(()) => search matches Ok(s) && s.looked_at() == 0,
            Err(source) => search matches Err(e) && e@ == (WorkspaceErrorV::Resolve {
                path: start@,
                source: source@,
            }),
        },
{
    match resolved {
        Ok(()) => Ok(WorkspaceSearch { ancestor: 0 }),
        Err(source) => Err(WorkspaceError::Resolve { path: start.to_owned(), source }),
    }
}

impl WorkspaceSearch {
    /// How many directories were looked at, none of them marked.
    pub closed spec fn looked_at(&self) -> nat {
        self.ancestor as nat
    }

    /// Takes the marks of the directory that was asked about last; none where it does not exist,
    /// the one before being the topmost.
    pub fn looked(&mut self, marks: Option<Marks>) -> (step: SearchStep)
        requires
            old(self).looked_at() < usize::MAX,
        ensures
            match marks {
                Some(m) => if is_marked(m) {
                    step == (SearchStep::Found { ancestor: old(self).looked_at() as usize })
                } else {
                    &&& step == (SearchStep::Look {
                        ancestor: (old(self).looked_at() + 1) as usize,
                    })
                    &&& final(self).looked_at() == old(self).looked_at() + 1
                },
                None => step == (SearchStep::Found { ancestor: 0 }),
            },
            forall|all: Seq<Marks>|
                #![trigger project_root(all, old(self).looked_at())]
                match marks {
                    Some(m) => old(self).looked_at() < all.len() && all[old(
                        self,
                    ).looked_at() as int] == m ==> project_root(all, old(self).looked_at()) == (
                    match step {
                        SearchStep::Found { ancestor } => ancestor as nat,
                        SearchStep::Look { ancestor } => project_root(all, ancestor as nat),
                    }),
                    None => old(self).looked_at() >= all.len() ==> project_root(
                        all,
                        old(self).looked_at(),
                    ) == 0,
                },
    {
        match marks {
            Some(m) => {
                if m.config || m.git {
                    SearchStep::Found { ancestor: self.ancestor }
                } else {
                    self.ancestor = self.ancestor + 1;
                    SearchStep::Look { ancestor: self.ancestor }
                }
            },
            None => SearchStep::Found { ancestor: 0 },
        }
    }
}

/// The nearest marked directory is the root of a project: it is marked, and none below it is.
pub proof fn law_nearest_mark_wins(marks: Seq<Marks>, from: nat)
    requires
        from <= marks.len(),
    ensures
        ({
            let root = project_root(marks, from);
            ||| from <= root < marks.len() && is_marked(marks[root as int]) && forall|i: int|
                from <= i < root ==> !is_marked(#[trigger] marks[i])
            ||| root == 0 && forall|i: int|
                from <= i < marks.len() ==> !is_marked(#[trigger] marks[i])
        }),
    decreases marks.len() - from,
{
    if from < marks.len() && !is_marked(marks[from as int]) {
        law_nearest_mark_wins(marks, from + 1);
    }
}

/// What reading an instruction file gave.
pub enum InstructionFile {
    /// There is none.
    Missing,
    /// It cannot be read.
    Unreadable { path: String, source: String },
    /// Its content, and where it really is.
    Content { path: String, content: String, canonical: Result<Vec<PathPart>, String> },
}

/// What reading an instruction file gave, in the model.
#[verifier::ext_equal]
pub enum InstructionFileV {
    Missing,
    Unreadable { path: Seq<char>, source: Seq<char> },
    Content { path: Seq<char>, content: Seq<char>, canonical: Result<Seq<PartV>, Seq<char>> },
}

impl View for InstructionFile {
    type V = InstructionFileV;

    open spec fn view(&self) -> InstructionFileV {
        match *self {
            InstructionFile::Missing => InstructionFileV::Missing,
            InstructionFile::Unreadable { path, source } => InstructionFileV::Unreadable {
                path: path@,
                source: source@,
            },
            InstructionFile::Content { path, content, canonical } => InstructionFileV::Content {
                path: path@,
                content: content@,
                canonical: match canonical {
                    Ok(parts) => Ok(paths::part_views(parts@)),
                    Err(source) => Err(source@),
                },
            },
        }
    }
}

/// What to do to load the instructions of a project.
#[derive(Debug, PartialEq)]
pub enum InstructionStep {
    /// Read a file of the directory that is so many names below the root, on the way to the working
    /// directory.
    Read { depth: usize, name: String },
    /// Nothing: they are loaded or refused.
    Done { result: Result<String, WorkspaceError> },
}

/// What to do to load instructions, in the model.
#[verifier::ext_equal]
pub enum InstructionStepV {
    Read { depth: usize, name: Seq<char> },
    Done { result: Result<Seq<char>, WorkspaceErrorV> },
}

impl View for InstructionStep {
    type V = InstructionStepV;

    open spec fn view(&self) -> InstructionStepV {
        match *self {
            InstructionStep::Read { depth, name } => InstructionStepV::Read { depth, name: name@ },
            InstructionStep::Done { result } => InstructionStepV::Done {
                result: match result {
                    Ok(text) => Ok(text@),
                    Err(error) => Err(error@),
                },
            },
        }
    }
}

/// Instructions that are being loaded, from the root down to the working directory.
pub struct InstructionScan {
    root: Vec<PathPart>,
    separator: String,
    names: Vec<String>,
    levels: usize,
    depth: usize,
    file: usize,
    total: usize,
    max_chars: usize,
    sections: Vec<String>,
}

/// Instructions that are being loaded, in the model.
#[verifier::ext_equal]
pub struct InstructionV {
    pub root: Seq<PartV>,
    pub separator: Seq<char>,
    /// The names of the files that each directory is looked through for, in order.
    pub names: Seq<Seq<char>>,
    /// How many names the working directory is below the root.
    pub levels: usize,
    /// How many names the directory that is looked at is below the root.
    pub depth: usize,
    /// Which of its files is looked at.
    pub file: usize,
    pub total: usize,
    pub max_chars: usize,
    pub sections: Seq<Seq<char>>,
}

impl View for InstructionScan {
    type V = InstructionV;

    closed spec fn view(&self) -> InstructionV {
        InstructionV {
            root: paths::part_views(self.root@),
            separator: self.separator@,
            names: text::views(self.names@),
            levels: self.levels,
            depth: self.depth,
            file: self.file,
            total: self.total,
            max_chars: self.max_chars,
            sections: text::views(self.sections@),
        }
    }
}

/// What loaded sections come to.
pub open spec fn joined_sections(sections: Seq<Seq<char>>) -> Seq<char> {
    if sections.len() == 0 {
        "(none)"@
    } else {
        text::join_text(sections, "\n\n"@)
    }
}

/// The next file: the next one of the directory, the first of the next directory down, or none.
pub open spec fn next_file(scan: InstructionV) -> (InstructionV, InstructionStepV) {
    if scan.file + 1 < scan.names.len() {
        let file = (scan.file + 1) as usize;
        (
            InstructionV { file, ..scan },
            InstructionStepV::Read { depth: scan.depth, name: scan.names[file as int] },
        )
    } else if scan.depth < scan.levels {
        let depth = (scan.depth + 1) as usize;
        (
            InstructionV { depth, file: 0, ..scan },
            InstructionStepV::Read { depth, name: scan.names[0] },
        )
    } else {
        (scan, InstructionStepV::Done { result: Ok(joined_sections(scan.sections)) })
    }
}

/// How a file's instructions are shown: under a heading with where it is below the root.
pub open spec fn section(scan: InstructionV, file: Seq<PartV>, content: Seq<char>) -> Seq<char> {
    "## "@ + paths::path_text(paths::relative_to(file, scan.root), scan.separator) + "\n"@ + content
}

/// What a file makes of the instructions so far.
pub open spec fn file_step(scan: InstructionV, file: InstructionFileV) -> (
    InstructionV,
    InstructionStepV,
) {
    match file {
        InstructionFileV::Missing => next_file(scan),
        InstructionFileV::Unreadable { path, source } => (
            scan,
            InstructionStepV::Done { result: Err(WorkspaceErrorV::Read { path, source }) },
        ),
        InstructionFileV::Content { path, content, canonical } => match canonical {
            Err(source) => (
                scan,
                InstructionStepV::Done { result: Err(WorkspaceErrorV::Read { path, source }) },
            ),
            Ok(found) => if !paths::is_inside(found, scan.root) {
                (
                    scan,
                    InstructionStepV::Done { result: Err(WorkspaceErrorV::InstructionEscape(path)) },
                )
            } else if scan.total + content.len() > scan.max_chars {
                (
                    scan,
                    InstructionStepV::Done {
                        result: Err(WorkspaceErrorV::TooLarge { limit: scan.max_chars }),
                    },
                )
            } else {
                next_file(
                    InstructionV {
                        total: (scan.total + content.len()) as usize,
                        sections: scan.sections.push(section(scan, found, content)),
                        ..scan
                    },
                )
            },
        },
    }
}

/// Instructions in order: the files so far are within the limit, the directory that is looked at is
/// not below the working directory, and the file is one that directories are looked through for.
pub open spec fn load_in_order(scan: InstructionV) -> bool {
    scan.total <= scan.max_chars && scan.depth <= scan.levels && scan.file < scan.names.len()
        <= usize::MAX
}

/// What loading starts with: the first file of the root, or nothing where no file is looked for.
pub open spec fn first_file(names: Seq<Seq<char>>) -> InstructionStepV {
    if names.len() == 0 {
        InstructionStepV::Done { result: Ok(joined_sections(seq![])) }
    } else {
        InstructionStepV::Read { depth: 0, name: names[0] }
    }
}

/// The names of the files that hold instructions, in the order in which a directory is looked
/// through for them: `AGENTS.md`, and behind it those that are added.
pub fn instruction_files(added: Vec<String>) -> (names: Vec<String>)
    ensures
        text::views(names@) == seq!["AGENTS.md"@] + text::views(added@),
{
    let mut names: Vec<String> = Vec::new();
    names.push("AGENTS.md".to_owned());
    let mut more: Vec<String> = added;
    names.append(&mut more);
    names
}

/// A directory that the file system resolved, with how it shows, or failed to.
pub struct Resolution {
    pub path: String,
    pub resolved: Result<(Vec<PathPart>, String), String>,
}

/// Starts to load the instructions of a project for a working directory, out of the files of these
/// names.
pub fn load_project_instructions(
    root: Resolution,
    cwd: Resolution,
    names: Vec<String>,
    separator: &str,
    max_chars: usize,
) -> (scan: Result<(InstructionScan, InstructionStep), WorkspaceError>)
    ensures
        match (root.resolved, cwd.resolved) {
            (Err(source), _) => scan matches Err(e) && e@ == (WorkspaceErrorV::Resolve {
                path: root.path@,
                source: source@,
            }),
            (_, Err(source)) => scan matches Err(e) && e@ == (WorkspaceErrorV::Resolve {
                path: cwd.path@,
                source: source@,
            }),
            (Ok((r, r_shown)), Ok((c, c_shown))) => if !paths::is_inside(
                paths::part_views(c@),
                paths::part_views(r@),
            ) {
                scan matches Err(e) && e@ == (WorkspaceErrorV::Outside {
                    root: r_shown@,
                    cwd: c_shown@,
                })
            } else {
                scan matches Ok((s, step)) && {
                    &&& s@ == (InstructionV {
                        root: paths::part_views(r@),
                        separator: separator@,
                        names: text::views(names@),
                        levels: (c@.len() - r@.len()) as usize,
                        depth: 0,
                        file: 0,
                        total: 0,
                        max_chars,
                        sections: seq![],
                    })
                    &&& step@ == first_file(text::views(names@))
                    &&& names@.len() > 0 ==> load_in_order(s@)
                }
            },
        },
{
    let (r, r_shown) = match root.resolved {
        Ok(resolved) => resolved,
        Err(source) => {
            return Err(WorkspaceError::Resolve { path: root.path, source });
        },
    };
    let (c, c_shown) = match cwd.resolved {
        Ok(resolved) => resolved,
        Err(source) => {
            return Err(WorkspaceError::Resolve { path: cwd.path, source });
        },
    };
    if !inside(c.as_slice(), r.as_slice()) {
        return Err(WorkspaceError::Outside { root: r_shown, cwd: c_shown });
    }
    let levels: usize = c.len() - r.len();
    let step = if names.len() == 0 {
        InstructionStep::Done { result: Ok("(none)".to_owned()) }
    } else {
        InstructionStep::Read { depth: 0, name: names[0].clone() }
    };
    let scan = InstructionScan {
        root: r,
        separator: separator.to_owned(),
        names,
        levels,
        depth: 0,
        file: 0,
        total: 0,
        max_chars,
        sections: Vec::new(),
    };
    assert(scan@.sections == Seq::<Seq<char>>::empty());
    Ok((scan, step))
}

impl InstructionScan {
    fn next(&mut self) -> (step: InstructionStep)
        requires
            load_in_order(old(self)@),
        ensures
            (final(self)@, step@) == next_file(old(self)@),
    {
        if self.file < self.names.len() - 1 {
            self.file = self.file + 1;
            InstructionStep::Read { depth: self.depth, name: self.names[self.file].clone() }
        } else if self.depth < self.levels {
            self.depth = self.depth + 1;
            self.file = 0;
            InstructionStep::Read { depth: self.depth, name: self.names[0].clone() }
        } else if self.sections.len() == 0 {
            InstructionStep::Done { result: Ok("(none)".to_owned()) }
        } else {
            InstructionStep::Done { result: Ok(join(&self.sections, "\n\n")) }
        }
    }

    /// Goes on with what reading the file gave that was asked for last.
    pub fn resume(&mut self, file: InstructionFile) -> (step: InstructionStep)
        requires
            load_in_order(old(self)@),
        ensures
            (final(self)@, step@) == file_step(old(self)@, file@),
            load_in_order(final(self)@),
    {
        match file {
            InstructionFile::Missing => self.next(),
            InstructionFile::Unreadable { path, source } => InstructionStep::Done {
                result: Err(WorkspaceError::Read { path, source }),
            },
            InstructionFile::Content { path, content, canonical } => {
                let found = match canonical {
                    Ok(found) => found,
                    Err(source) => {
                        return InstructionStep::Done {
                            result: Err(WorkspaceError::Read { path, source }),
                        };
                    },
                };
                if !inside(found.as_slice(), self.root.as_slice()) {
                    return InstructionStep::Done {
                        result: Err(WorkspaceError::InstructionEscape(path)),
                    };
                }
                let count = to_chars(content.as_str()).len();
                if count > self.max_chars - self.total {
                    return InstructionStep::Done {
                        result: Err(WorkspaceError::TooLarge { limit: self.max_chars }),
                    };
                }
                let label = show_relative(
                    found.as_slice(),
                    self.root.as_slice(),
                    self.separator.as_str(),
                );
                let ghost before = self.sections@;
                let shown = cat4("## ", label.as_str(), "\n", content.as_str());
                self.total = self.total + count;
                self.sections.push(shown);
                assert(text::views(self.sections@) == text::views(before).push(shown@));
                self.next()
            },
        }
    }
}

/// Instructions are loaded from the root down: each step looks at the file after the one before, in
/// the order of the directories, and what was loaded stays in front of what comes after.
pub proof fn law_instructions_go_root_to_leaf(scan: InstructionV, file: InstructionFileV)
    requires
        load_in_order(scan),
    ensures
        ({
            let (next, step) = file_step(scan, file);
            &&& scan.sections.is_prefix_of(next.sections)
            &&& next.sections.len() <= scan.sections.len() + 1
            &&& step matches InstructionStepV::Read { depth, name } ==> {
                &&& next.depth == depth && name == scan.names[next.file as int]
                &&& depth == scan.depth && next.file == scan.file + 1 || depth == scan.depth + 1
                    && next.file == 0 && scan.file + 1 == scan.names.len()
                &&& depth <= scan.levels
            }
        }),
{
}

/// No instruction file outside the root is taken in.
pub proof fn law_instructions_are_contained(scan: InstructionV, file: InstructionFileV)
    requires
        file_step(scan, file).0.sections.len() > scan.sections.len(),
    ensures
        file matches InstructionFileV::Content { canonical: Ok(found), .. } && paths::is_inside(
            found,
            scan.root,
        ),
{
}

/// A file of instructions that is inside the root and within the limit is taken in whole, under a
/// heading with where it is; one that is missing is passed over, and one that cannot be read, lies
/// outside or goes over the limit ends the loading with that error.
pub proof fn law_instructions_are_taken_in_whole(scan: InstructionV, file: InstructionFileV)
    requires
        load_in_order(scan),
    ensures
        ({
            let (next, step) = file_step(scan, file);
            let failed = |error: WorkspaceErrorV|
                step == (InstructionStepV::Done { result: Err(error) });
            &&& file is Missing ==> next.sections == scan.sections && next.total == scan.total
            &&& file matches InstructionFileV::Unreadable { path, source } ==> failed(
                WorkspaceErrorV::Read { path, source },
            )
            &&& file matches InstructionFileV::Content { path, content, canonical: Err(source) }
                ==> failed(WorkspaceErrorV::Read { path, source })
            &&& file matches InstructionFileV::Content { path, content, canonical: Ok(found) }
                ==> if !scan.root.is_prefix_of(found) {
                failed(WorkspaceErrorV::InstructionEscape(path))
            } else if scan.total + content.len() > scan.max_chars {
                failed(WorkspaceErrorV::TooLarge { limit: scan.max_chars })
            } else {
                &&& next.sections == scan.sections.push(
                    "## "@ + paths::path_text(
                        found.skip(scan.root.len() as int),
                        scan.separator,
                    ) + "\n"@ + content,
                )
                &&& next.total == scan.total + content.len()
                &&& !(step matches InstructionStepV::Done { result: Err(_) })
            }
        }),
{
}

/// After a file comes the next name in the same directory, then the first name one directory further
/// down, up to the working directory; then all sections are given back, a blank line between each
/// two, or a word that there are none.
pub proof fn law_every_directory_is_looked_through(scan: InstructionV)
    requires
        load_in_order(scan),
    ensures
        ({
            let (next, step) = file_step(scan, InstructionFileV::Missing);
            &&& scan.file + 1 < scan.names.len() ==> step == (InstructionStepV::Read {
                depth: scan.depth,
                name: scan.names[scan.file + 1],
            }) && next.file == scan.file + 1 && next.depth == scan.depth
            &&& scan.file + 1 == scan.names.len() && scan.depth < scan.levels ==> (
            step matches InstructionStepV::Read { depth, name } && depth == scan.depth + 1 && name
                == scan.names[0]) && next.file == 0 && next.depth == scan.depth + 1
            &&& scan.file + 1 == scan.names.len() && scan.depth == scan.levels && scan.sections.len()
                > 0 ==> step == (InstructionStepV::Done {
                result: Ok(text::join_text(scan.sections, "\n\n"@)),
            })
            &&& scan.file + 1 == scan.names.len() && scan.depth == scan.levels && scan.sections.len()
                == 0 ==> step == (InstructionStepV::Done { result: Ok("(none)"@) })
            &&& next.root == scan.root && next.names == scan.names && next.levels == scan.levels
            &&& next.max_chars == scan.max_chars && next.separator == scan.separator
        }),
        scan.names.len() > 0 ==> first_file(scan.names) == (InstructionStepV::Read {
            depth: 0,
            name: scan.names[0],
        }),
{
}

/// The root of a project is the nearest directory, from the start on upwards, that holds a
/// configuration or a repository; the start itself where none does.
pub proof fn law_roots_hold_a_configuration_or_a_repository(marks: Seq<Marks>, i: int)
    requires
        0 <= i < marks.len(),
        marks[i].config || marks[i].git,
        forall|j: int| 0 <= j < i ==> !(#[trigger] marks[j]).config && !marks[j].git,
    ensures
        project_root(marks, 0) == i,
{
    law_nearest_mark_wins(marks, 0);
    let root = project_root(marks, 0) as int;
    assert(is_marked(marks[i]));
    if root < i {
        assert(!marks[root].config && !marks[root].git);
    }
    if root > i {
        assert(!is_marked(marks[i]));
    }
}

/// Without any mark the start is the root of a project.
pub proof fn law_unmarked_projects_start_at_the_start(marks: Seq<Marks>)
    requires
        forall|j: int| 0 <= j < marks.len() ==> !(#[trigger] marks[j]).config && !marks[j].git,
    ensures
        project_root(marks, 0) == 0,
{
    law_nearest_mark_wins(marks, 0);
}

/// A workspace error shows what it is about: the paths, what is wrong, or the limit.
pub proof fn law_workspace_errors_show_what_they_know(
    path: Seq<char>,
    source: Seq<char>,
    limit: usize,
)
    ensures
        workspace_error_text(WorkspaceErrorV::Resolve { path, source })
            == "failed to resolve workspace path "@ + (path + ": "@ + source),
        workspace_error_text(WorkspaceErrorV::Read { path, source })
            == "failed to read instruction file "@ + (path + ": "@ + source),
        path.is_suffix_of(workspace_error_text(WorkspaceErrorV::Outside { root: path, cwd: source })),
        ("working directory "@ + source).is_prefix_of(
            workspace_error_text(WorkspaceErrorV::Outside { root: path, cwd: source }),
        ),
        path.is_suffix_of(workspace_error_text(WorkspaceErrorV::InstructionEscape(path))),
        (text::decimal_text(limit as nat) + " character limit"@).is_suffix_of(
            workspace_error_text(WorkspaceErrorV::TooLarge { limit }),
        ),
{
    let outside = workspace_error_text(WorkspaceErrorV::Outside { root: path, cwd: source });
    let front = "working directory "@ + source;
    assert(path == outside.subrange(outside.len() - path.len(), outside.len() as int));
    assert(front == outside.take(front.len() as int));
    let escape = workspace_error_text(WorkspaceErrorV::InstructionEscape(path));
    assert(path == escape.subrange(escape.len() - path.len(), escape.len() as int));
    let large = workspace_error_text(WorkspaceErrorV::TooLarge { limit });
    let end = text::decimal_text(limit as nat) + " character limit"@;
    assert(end == large.subrange(large.len() - end.len(), large.len() as int));
}

} // verus!
