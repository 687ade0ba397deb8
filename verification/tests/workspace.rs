use std::collections::BTreeMap;

use codehelm::paths::PathPart;
use codehelm::workspace::{
    discover_workspace, instruction_files, load_project_instructions, InstructionFile,
    InstructionStep, Marks, Resolution, SearchStep, WorkspaceError,
};

fn parts(path: &str) -> Vec<PathPart> {
    let mut list = vec![PathPart::Root];
    for name in path.split('/').filter(|name| !name.is_empty()) {
        list.push(PathPart::Normal(name.as_bytes().to_vec()));
    }
    list
}

fn resolved(path: &str) -> Resolution {
    Resolution { path: path.to_owned(), resolved: Ok((parts(path), path.to_owned())) }
}

fn load(
    files: &BTreeMap<&str, &str>,
    cwd: &str,
    max_chars: usize,
) -> Result<String, WorkspaceError> {
    let names = instruction_files(vec!["NOTES.md".to_owned()]);
    let (mut scan, mut step) =
        load_project_instructions(resolved("/w"), resolved(cwd), names, "/", max_chars)?;
    loop {
        match step {
            InstructionStep::Read { depth, name } => {
                let levels: Vec<&str> = cwd.split('/').skip(1).take(depth + 1).collect();
                let path = format!("/{}/{name}", levels.join("/"));
                let file = match files.get(path.as_str()) {
                    Some(content) => InstructionFile::Content {
                        content: content.to_string(),
                        canonical: Ok(parts(&path)),
                        path,
                    },
                    None => InstructionFile::Missing,
                };
                step = scan.resume(file);
            }
            InstructionStep::Done { result } => return result,
        }
    }
}

#[test]
fn discovers_repository_from_nested_directory() {
    let ancestors = ["/w/packages/app/src", "/w/packages/app", "/w/packages", "/w", "/"];
    let mut search = discover_workspace(ancestors[0], Ok(())).unwrap();
    let mut ancestor = 0;
    let found = loop {
        let marks = ancestors
            .get(ancestor)
            .map(|path| Marks { config: false, git: *path == "/w" });
        match search.looked(marks) {
            SearchStep::Look { ancestor: next } => ancestor = next,
            SearchStep::Found { ancestor } => break ancestor,
        }
    };
    assert_eq!(ancestors[found], "/w");
}

#[test]
fn instructions_are_loaded_root_to_leaf() {
    let files = BTreeMap::from([
        ("/w/AGENTS.md", "root"),
        ("/w/packages/AGENTS.md", "package"),
        ("/w/packages/app/NOTES.md", "app"),
    ]);
    let instructions = load(&files, "/w/packages/app/src", 100).unwrap();
    assert!(instructions.find("root").unwrap() < instructions.find("package").unwrap());
    assert!(instructions.find("package").unwrap() < instructions.find("app").unwrap());
    assert!(matches!(load(&files, "/w", 2), Err(WorkspaceError::TooLarge { .. })));
}

#[test]
fn instructions_stand_under_their_file() {
    let files = BTreeMap::from([
        ("/w/AGENTS.md", "äb"),
        ("/w/NOTES.md", "c"),
        ("/w/sub/AGENTS.md", "d\n"),
    ]);
    assert_eq!(
        load(&files, "/w/sub", 5).unwrap(),
        "## AGENTS.md\näb\n\n## NOTES.md\nc\n\n## sub/AGENTS.md\nd\n"
    );
    assert_eq!(load(&files, "/w", 3).unwrap(), "## AGENTS.md\näb\n\n## NOTES.md\nc");
    assert_eq!(load(&BTreeMap::new(), "/w/sub", 0).unwrap(), "(none)");
    let error = load(&files, "/w/sub", 4).unwrap_err();
    assert_eq!(
        error.describe(),
        "project instructions exceed the configured 4 character limit"
    );
}

#[test]
fn nothing_is_looked_for_without_names() {
    let (_, step) =
        load_project_instructions(resolved("/w"), resolved("/w/a"), vec![], "/", 9).unwrap();
    assert_eq!(step, InstructionStep::Done { result: Ok("(none)".to_owned()) });
}

#[test]
fn instructions_stay_inside_the_workspace() {
    let names = || vec!["AGENTS.md".to_owned()];
    let Err(error) = load_project_instructions(resolved("/w"), resolved("/x"), names(), "/", 9)
    else {
        panic!("loaded")
    };
    assert_eq!(error.describe(), "working directory /x is outside workspace /w");
    let gone = Resolution { path: "/g".to_owned(), resolved: Err("missing".to_owned()) };
    let Err(error) = load_project_instructions(resolved("/w"), gone, names(), "/", 9) else {
        panic!("loaded")
    };
    assert_eq!(error.describe(), "failed to resolve workspace path /g: missing");
    let start = || {
        load_project_instructions(resolved("/w"), resolved("/w"), names(), "/", 9).unwrap().0
    };
    let linked = InstructionFile::Content {
        path: "/w/AGENTS.md".to_owned(),
        content: "x".to_owned(),
        canonical: Ok(parts("/etc/passwd")),
    };
    assert_eq!(
        start().resume(linked),
        InstructionStep::Done {
            result: Err(WorkspaceError::InstructionEscape("/w/AGENTS.md".to_owned()))
        }
    );
    let unreadable = InstructionFile::Unreadable {
        path: "/w/AGENTS.md".to_owned(),
        source: "denied".to_owned(),
    };
    let InstructionStep::Done { result } = start().resume(unreadable) else {
        panic!("not done")
    };
    assert_eq!(
        result.unwrap_err().describe(),
        "failed to read instruction file /w/AGENTS.md: denied"
    );
    assert_eq!(
        WorkspaceError::InstructionEscape("p".to_owned()).describe(),
        "instruction file escapes workspace: p"
    );
}

#[test]
fn without_a_mark_the_start_is_the_workspace() {
    let none = Marks { config: false, git: false };
    let mut search = discover_workspace("/a/b", Ok(())).unwrap();
    assert_eq!(search.looked(Some(none)), SearchStep::Look { ancestor: 1 });
    assert_eq!(search.looked(None), SearchStep::Found { ancestor: 0 });
    let mut search = discover_workspace("/a/b", Ok(())).unwrap();
    let configured = Marks { config: true, git: false };
    assert_eq!(search.looked(Some(configured)), SearchStep::Found { ancestor: 0 });
    let Err(error) = discover_workspace("/gone", Err("missing".to_owned())) else {
        panic!("found")
    };
    assert_eq!(error.describe(), "failed to resolve workspace path /gone: missing");
}

#[test]
fn instruction_files_start_with_agents() {
    assert_eq!(instruction_files(vec![]), ["AGENTS.md"]);
    let added = vec!["NOTES.md".to_owned(), "HINTS.md".to_owned()];
    assert_eq!(instruction_files(added), ["AGENTS.md", "NOTES.md", "HINTS.md"]);
}
