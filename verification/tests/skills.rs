use std::collections::BTreeMap;

use codehelm::paths::PathPart;
use codehelm::skills::{
    parse_metadata, valid_name, EntryReport, Place, SkillError, SkillRegistry, SkillReply,
    SkillStep,
};

fn parts(path: &str) -> Vec<PathPart> {
    let mut list = vec![PathPart::Root];
    for name in path.split('/').filter(|name| !name.is_empty()) {
        list.push(PathPart::Normal(name.as_bytes().to_vec()));
    }
    list
}

/// Packages by the path of their file below the root, and links from one path to another.
#[derive(Default)]
struct Tree {
    files: BTreeMap<String, String>,
    links: BTreeMap<String, String>,
}

impl Tree {
    fn file(mut self, path: &str, content: &str) -> Self {
        self.files.insert(path.to_owned(), content.to_owned());
        self
    }

    fn link(mut self, path: &str, target: &str) -> Self {
        self.links.insert(path.to_owned(), target.to_owned());
        self
    }

    fn canonical(&self, path: &str) -> String {
        self.links.get(path).cloned().unwrap_or_else(|| path.to_owned())
    }

    fn packages(&self, directory: &str) -> Vec<String> {
        let prefix = format!("{directory}/");
        let mut names: Vec<String> = self
            .files
            .keys()
            .chain(self.links.keys())
            .filter_map(|path| path.strip_prefix(&prefix))
            .filter_map(|rest| rest.split_once('/'))
            .map(|(name, _)| name.to_owned())
            .collect();
        names.dedup();
        names
    }

    fn discover(&self, max_chars: usize) -> Result<SkillRegistry, SkillError> {
        let (mut scan, mut step) = SkillRegistry::discover("/w", Ok(parts("/w")), max_chars)?;
        let mut directory = String::new();
        let mut entries = vec![];
        let mut file = String::new();
        loop {
            let reply = match step {
                SkillStep::Directory { relative } => {
                    directory = format!("/w/{relative}");
                    entries = self.packages(&directory);
                    let place = if entries.is_empty() {
                        Place::Missing
                    } else {
                        Place::Found {
                            path: directory.clone(),
                            shown: directory.clone(),
                            canonical: parts(&directory),
                        }
                    };
                    SkillReply::Place { place }
                }
                SkillStep::List => SkillReply::Listed { result: Ok(()) },
                SkillStep::NextEntry => {
                    let entry = if entries.is_empty() {
                        EntryReport::End
                    } else {
                        let path = format!("{directory}/{}", entries.remove(0));
                        file = format!("{path}/SKILL.md");
                        EntryReport::Directory { canonical: Ok(parts(&path)), path }
                    };
                    SkillReply::Entry { entry }
                }
                SkillStep::File => {
                    let canonical = self.canonical(&file);
                    SkillReply::Place {
                        place: Place::Found {
                            path: file.clone(),
                            shown: canonical.clone(),
                            canonical: parts(&canonical),
                        },
                    }
                }
                SkillStep::Content => SkillReply::Content {
                    result: Ok(self.files[&self.canonical(&file)].clone()),
                },
                SkillStep::Done { result } => return result,
            };
            step = scan.resume(reply);
        }
    }
}

#[test]
fn discovers_metadata_and_loads_instructions_on_demand() {
    let tree = Tree::default().file(
        "/w/.agents/skills/testing/SKILL.md",
        "---\nname: testing\ndescription: Run focused tests\n---\n\n# Instructions\nUse cargo test.\n",
    );
    let registry = tree.discover(10_000).unwrap();
    assert_eq!(registry.list(), "testing: Run focused tests");
    assert!(registry.read("testing").unwrap().contains("Use cargo test"));
    assert!(registry.read("missing").is_none());
    assert!(!registry.is_empty());
}

#[test]
fn rejects_duplicates_and_oversized_packages() {
    let content = "---\nname: same\ndescription: one\n---\nbody";
    let tree = Tree::default()
        .file("/w/.agents/skills/testing/SKILL.md", content)
        .file("/w/.codehelm/skills/duplicate/SKILL.md", content);
    assert!(matches!(tree.discover(10_000), Err(SkillError::Duplicate(_))));
    assert!(matches!(tree.discover(1), Err(SkillError::TooLarge { .. })));
}

#[test]
fn rejects_skill_file_symlink_escape() {
    let tree = Tree::default()
        .file("/w.outside-skill", "---\nname: escaped\ndescription: escaped\n---\nsecret")
        .link("/w/.agents/skills/testing/SKILL.md", "/w.outside-skill");
    assert!(matches!(tree.discover(10_000), Err(SkillError::Escape(_))));
}

#[test]
fn skills_are_listed_by_name_and_counted_together() {
    let content = |name: &str| format!("---\nname: {name}\ndescription: d\n---\n");
    let tree = Tree::default()
        .file("/w/.agents/skills/1/SKILL.md", &content("b"))
        .file("/w/.agents/skills/2/SKILL.md", &content("a"))
        .file("/w/.codehelm/skills/3/SKILL.md", &content("C"));
    let size = 3 * content("a").len();
    assert_eq!(tree.discover(size).unwrap().list(), "C: d\na: d\nb: d");
    let error = tree.discover(size - 1).err().unwrap();
    assert_eq!(
        error.describe(),
        format!("skill instructions exceed the configured {} character limit", size - 1)
    );
    let registry = Tree::default().discover(0).unwrap();
    assert!(registry.is_empty());
    assert_eq!(registry.list(), "");
}

fn metadata(content: &str) -> Result<(String, String), String> {
    parse_metadata("p", content).map_err(|error| error.describe())
}

#[test]
fn metadata_is_read_from_the_front() {
    let pair = |name: &str, description: &str| Ok((name.to_owned(), description.to_owned()));
    assert_eq!(metadata("---\nname: a\ndescription: 'b: c'\n---\n"), pair("a", "b: c"));
    assert_eq!(
        metadata("---\r\n name : \"a\" \r\nother\r\ndescription:b\r\n---\r\nrest"),
        pair("a", "b")
    );
    assert_eq!(metadata("---\nname: a\nname: z\ndescription: b\n---\n"), pair("z", "b"));
    let missing = "invalid skill p: expected YAML frontmatter with name and description";
    assert_eq!(metadata("name: a"), Err(missing.to_owned()));
    assert_eq!(metadata("---\nname: a\ndescription: b\n---"), Err(missing.to_owned()));
    let name = "invalid skill p: name must use 1-64 letters, digits, underscores, or hyphens";
    assert_eq!(metadata("---\nname: a b\ndescription: b\n---\n"), Err(name.to_owned()));
    assert_eq!(metadata("---\ndescription: b\n---\n"), Err(name.to_owned()));
    let description = "invalid skill p: description must contain 1-500 characters";
    assert_eq!(metadata("---\nname: a\ndescription: ''\n---\n"), Err(description.to_owned()));
    let long = "é".repeat(500);
    assert_eq!(
        metadata(&format!("---\nname: a\ndescription: {long}\n---\n")),
        pair("a", &long)
    );
    assert!(metadata(&format!("---\nname: a\ndescription: {long}é\n---\n")).is_err());
}

#[test]
fn names_are_short_and_plain() {
    assert!(valid_name("a_B-9"));
    assert!(valid_name(&"x".repeat(64)));
    assert!(!valid_name(&"x".repeat(65)));
    assert!(!valid_name(""));
    assert!(!valid_name("a.b"));
}

#[test]
fn failures_of_the_file_system_are_errors() {
    let error = SkillRegistry::discover("/gone", Err("missing".to_owned()), 1).err().unwrap();
    assert_eq!(error.describe(), "failed to inspect skill path /gone: missing");
    let start = || SkillRegistry::discover("/w", Ok(parts("/w")), 100).unwrap();
    let found = |path: &str| SkillReply::Place {
        place: Place::Found {
            path: path.to_owned(),
            shown: path.to_owned(),
            canonical: parts(path),
        },
    };
    let (mut scan, _) = start();
    let SkillStep::Done { result } = scan.resume(found("/elsewhere")) else {
        panic!("not done")
    };
    assert_eq!(
        result.err().unwrap().describe(),
        "skill file escapes its package directory: /elsewhere"
    );
    let (mut scan, _) = start();
    scan.resume(found("/w/.agents/skills"));
    let step = scan.resume(SkillReply::Listed { result: Err("denied".to_owned()) });
    let SkillStep::Done { result } = step else {
        panic!("not done")
    };
    assert_eq!(
        result.err().unwrap().describe(),
        "failed to inspect skill path /w/.agents/skills: denied"
    );
    let (mut scan, _) = start();
    scan.resume(found("/w/.agents/skills"));
    scan.resume(SkillReply::Listed { result: Ok(()) });
    let other = SkillReply::Entry { entry: EntryReport::Other };
    assert!(matches!(scan.resume(other), SkillStep::NextEntry));
    let end = SkillReply::Entry { entry: EntryReport::End };
    assert!(
        matches!(scan.resume(end), SkillStep::Directory { relative } if relative == ".codehelm/skills")
    );
    assert_eq!(SkillError::Duplicate("x".to_owned()).describe(), "duplicate skill name `x`");
}
