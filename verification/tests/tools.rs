use codehelm::json::{parse, Json};
use codehelm::paths::PathPart;
use codehelm::permissions::{resolve_inside, Decision, PermissionError, PermissionPolicy};
use codehelm::tools::{
    admitted, approves, integer_arg, path_error, read_hit, required_arg, search_hits, skipped_name,
    string_arg, EntryKind, ReadOnlyApproval, SearchHit, ToolPlan, WalkReply, WalkStep,
    WorkspaceTools,
};
use codehelm::{AgentError, Mode};

fn json(text: &str) -> Json {
    parse(text).unwrap()
}

fn normal(name: &str) -> PathPart {
    PathPart::Normal(name.as_bytes().to_vec())
}

fn root() -> Vec<PathPart> {
    vec![PathPart::Root, normal("w")]
}

fn tools(limit: usize) -> WorkspaceTools {
    WorkspaceTools::new(Ok(root()), PermissionPolicy::default(), limit).unwrap()
}

fn error(tool: &str, message: &str) -> AgentError {
    AgentError::Tool { tool: tool.to_owned(), message: message.to_owned() }
}

/// An entry below the root: its name, its path, and what is inside where it is a directory.
struct Entry {
    name: &'static str,
    relative: &'static str,
    link: Option<bool>,
    inside: Option<Vec<Entry>>,
}

fn file(name: &'static str, relative: &'static str) -> Entry {
    Entry { name, relative, link: None, inside: None }
}

fn directory(name: &'static str, relative: &'static str, inside: Vec<Entry>) -> Entry {
    Entry { name, relative, link: None, inside: Some(inside) }
}

fn walk(tools: &WorkspaceTools, depth: usize, top: Vec<Entry>) -> Result<String, AgentError> {
    let (mut walk, mut step) = tools.list_files(depth);
    let mut opened: Vec<std::vec::IntoIter<Entry>> = vec![];
    let mut next = Some(top);
    let mut entry: Option<Entry> = None;
    loop {
        let reply = match step {
            WalkStep::Open => {
                let inside = match entry.take() {
                    Some(entry) => entry.inside,
                    None => next.take(),
                };
                opened.push(inside.unwrap().into_iter());
                WalkReply::Opened { result: Ok(()) }
            }
            WalkStep::NextEntry => match opened.last_mut().unwrap().next() {
                Some(found) => {
                    let reply = WalkReply::Entry {
                        name: Some(found.name.to_owned()),
                        relative: found.relative.to_owned(),
                    };
                    entry = Some(found);
                    reply
                }
                None => {
                    opened.pop();
                    WalkReply::End
                }
            },
            WalkStep::Kind => {
                let found = entry.as_ref().unwrap();
                WalkReply::Kind {
                    result: Ok(EntryKind {
                        symlink: found.link.is_some(),
                        directory: found.inside.is_some(),
                    }),
                }
            }
            WalkStep::Link => WalkReply::Link { inside: entry.as_ref().unwrap().link.unwrap() },
            WalkStep::Done { result } => return result,
        };
        step = tools.walk(&mut walk, reply);
    }
}

#[test]
fn reads_lines_and_hides_sensitive_files() {
    let tools = tools(1_000);
    let plan = tools
        .execute("read_file", &json(r#"{"path":"src/lib.rs","startLine":2,"endLine":2}"#))
        .unwrap();
    let ToolPlan::ReadFile { path, start, end } = plan else {
        panic!("not a file to read")
    };
    assert_eq!(path, "src/lib.rs");
    assert_eq!(tools.relative(&path), Ok(()));
    assert_eq!(tools.read_file("first\nneedle\nthird\n", start, end), "2: needle");
    let plan = tools.execute("list_files", &json(r#"{"depth":3}"#)).unwrap();
    let ToolPlan::ListFiles { path, depth } = plan else {
        panic!("not a directory to list")
    };
    assert_eq!(tools.relative(&path), Ok(()));
    let list = walk(
        &tools,
        depth,
        vec![
            directory("src", "src", vec![file("lib.rs", "src/lib.rs")]),
            file(".env", ".env"),
        ],
    )
    .unwrap();
    assert!(list.contains("src/lib.rs"));
    assert!(!list.contains(".env"));
}

#[test]
fn rejects_parent_paths() {
    let tools = tools(1_000);
    let plan = tools.execute("read_file", &json(r#"{"path":"../secret"}"#)).unwrap();
    let ToolPlan::ReadFile { path, .. } = plan else {
        panic!("not a file to read")
    };
    tools.relative(&path).unwrap();
    let parts = vec![PathPart::Parent, normal("secret")];
    let Err(refused) = resolve_inside(&path, false, &parts, "/w", Ok(tools.root_parts().clone()))
    else {
        panic!("resolved")
    };
    assert_eq!(path_error(&refused), error("path", "path escapes workspace: ../secret"));
}

#[test]
fn arguments_have_defaults() {
    let tools = tools(10);
    let plan = |tool: &str, args: &str| tools.execute(tool, &json(args));
    assert_eq!(
        plan("list_files", "null"),
        Ok(ToolPlan::ListFiles { path: ".".to_owned(), depth: 3 })
    );
    assert_eq!(
        plan("list_files", r#"{"path":"a","depth":99}"#),
        Ok(ToolPlan::ListFiles { path: "a".to_owned(), depth: 8 })
    );
    assert_eq!(
        plan("search", r#"{"pattern":"x"}"#),
        Ok(ToolPlan::Search { pattern: "x".to_owned(), path: ".".to_owned() })
    );
    assert_eq!(plan("search", "{}"), Err(error("pattern", "missing string argument")));
    assert_eq!(plan("read_file", r#"{"path":1}"#), Err(error("path", "missing string argument")));
    assert_eq!(plan("rm", "{}"), Err(error("rm", "unknown or unavailable tool")));
    assert_eq!(string_arg(&json(r#"{"a":"b"}"#), "a"), Some("b"));
    assert_eq!(integer_arg(&json(r#"{"a":-1}"#), "a"), None);
    assert_eq!(integer_arg(&json(r#"{"a":7}"#), "a"), Some(7));
    assert_eq!(required_arg(&json(r#"{"a":"b"}"#), "a"), Ok("b".to_owned()));
}

#[test]
fn line_ranges_are_cut_out() {
    let tools = tools(1_000);
    let data = "a\nb\r\nc";
    assert_eq!(tools.read_file(data, None, None), "1: a\n2: b\n3: c");
    assert_eq!(tools.read_file(data, Some(0), Some(2)), "1: a\n2: b");
    assert_eq!(tools.read_file(data, Some(3), None), "3: c");
    assert_eq!(tools.read_file(data, Some(4), None), "(empty)");
    assert_eq!(tools.read_file(data, Some(5), None), "(no lines)");
    assert_eq!(tools.read_file(data, Some(3), Some(1)), "(no lines)");
    assert_eq!(tools.read_file(data, Some(3), Some(2)), "(empty)");
    assert_eq!(tools.read_file("", None, None), "(empty)");
    let long = "x\n".repeat(500);
    assert!(tools.read_file(&long, Some(2), None).ends_with("output truncated"));
}

#[test]
fn long_output_is_cut() {
    assert_eq!(tools(3).truncate("abc".to_owned()), "abc");
    assert_eq!(tools(3).truncate("äbcd".to_owned()), "äbc\n… output truncated");
    assert_eq!(tools(0).truncate("a".to_owned()), "\n… output truncated");
}

#[test]
fn walks_are_sorted_bounded_and_stay_inside() {
    let tree = || {
        vec![
            file("z", "z"),
            directory("a", "a", vec![directory("b", "a/b", vec![file("c", "a/b/c")])]),
            directory("target", "target", vec![file("x", "target/x")]),
            Entry { name: "in", relative: "in", link: Some(true), inside: None },
            Entry { name: "out", relative: "out", link: Some(false), inside: None },
            file("k.key", "k.key"),
        ]
    };
    let tools = tools(1_000);
    assert_eq!(walk(&tools, 1, tree()), Ok("a\nin\nz".to_owned()));
    assert_eq!(walk(&tools, 2, tree()), Ok("a\na/b\nin\nz".to_owned()));
    assert_eq!(walk(&tools, 8, tree()), Ok("a\na/b\na/b/c\nin\nz".to_owned()));
    assert_eq!(walk(&tools, 0, tree()), Ok("(empty)".to_owned()));
    assert_eq!(walk(&tools, 3, vec![]), Ok("(empty)".to_owned()));
    assert!(skipped_name("node_modules") && skipped_name(".git") && !skipped_name("src"));
}

#[test]
fn walks_end_with_the_first_error() {
    let tools = tools(1_000);
    let (mut walk, step) = tools.list_files(2);
    assert_eq!(step, WalkStep::Open);
    assert_eq!(
        tools.walk(&mut walk, WalkReply::Opened { result: Err("denied".to_owned()) }),
        WalkStep::Done { result: Err(error("list_files", "denied")) }
    );
    let (mut walk, _) = tools.list_files(2);
    tools.walk(&mut walk, WalkReply::Opened { result: Ok(()) });
    let fault = PermissionError::PathEscape("x".to_owned());
    assert_eq!(
        tools.visit(&mut walk, Some("x".to_owned()), "x".to_owned(), Err(fault)),
        WalkStep::Done { result: Err(error("permission", "path escapes workspace: x")) }
    );
    assert_eq!(tools.not_a_directory("f"), error("list_files", "not a directory: f"));
}

#[test]
fn denied_paths_are_not_opened() {
    assert_eq!(tools(9).relative("x/.env"), Err(error("permission", "read denied: x/.env")));
    assert_eq!(admitted("p", Ok(Decision::Allow)), Ok(()));
    assert_eq!(admitted("p", Ok(Decision::Deny)), Err(error("permission", "read denied: p")));
    let broken = WorkspaceTools::new(Err("gone".to_owned()), PermissionPolicy::default(), 1);
    assert_eq!(broken.err(), Some(error("workspace", "gone")));
}

const MATCHES: &str = r#"{"type":"begin","data":{"path":{"text":"/w/a.rs"}}}
{"type":"match","data":{"path":{"text":"/w/a.rs"},"lines":{"text":"one \n"},"line_number":4}}
not json
{"type":"match","data":{"path":{"bytes":"AA"}}}
{"type":"match","data":{"path":{"text":"/w/.env"},"lines":{"text":"KEY"},"line_number":1}}
{"type":"match","data":{"path":{"text":"/w/b.rs"}}}
"#;

#[test]
fn matches_are_read_judged_and_shown() {
    let hits = search_hits(true, Some(0), MATCHES.as_bytes(), b"").unwrap();
    assert_eq!(
        hits,
        vec![
            SearchHit { path: "/w/a.rs".to_owned(), line_number: 4, text: "one".to_owned() },
            SearchHit { path: "/w/.env".to_owned(), line_number: 1, text: "KEY".to_owned() },
            SearchHit { path: "/w/b.rs".to_owned(), line_number: 0, text: String::new() },
        ]
    );
    let relatives = vec!["a.rs".to_owned(), ".env".to_owned(), "b.rs".to_owned()];
    assert_eq!(tools(99).search(&hits, &relatives), Ok("a.rs:4:one\nb.rs:0:".to_owned()));
    assert_eq!(tools(99).search(&vec![], &vec![]), Ok("(no matches)".to_owned()));
    assert_eq!(read_hit(&json(r#"{"type":"end"}"#)), None);
}

#[test]
fn failed_searches_are_told_from_empty_ones() {
    assert_eq!(search_hits(false, Some(1), b"", b"x"), Ok(vec![]));
    assert_eq!(
        search_hits(false, Some(2), MATCHES.as_bytes(), b"bad \xff"),
        Err(error("search", "bad \u{fffd}"))
    );
    assert_eq!(search_hits(false, None, b"", b""), Err(error("search", "")));
}

#[test]
fn offered_tools_are_read_only() {
    let specs = tools(9).specs();
    let names: Vec<&str> = specs.iter().map(|spec| spec.name.as_str()).collect();
    assert_eq!(names, ["list_files", "read_file", "search"]);
    assert_eq!(specs[1].description, "Read a line range from a UTF-8 workspace file");
    assert_eq!(
        specs[0].input_schema,
        json(
            r#"{"type":"object","properties":{"path":{"type":"string"},
                "depth":{"type":"integer","minimum":1,"maximum":8}},"additionalProperties":false}"#
        )
    );
    assert_eq!(
        specs[2].input_schema,
        json(
            r#"{"type":"object","properties":{"pattern":{"type":"string"},
                "path":{"type":"string"}},"required":["pattern"],"additionalProperties":false}"#
        )
    );
    for name in names {
        assert!(ReadOnlyApproval.approve(name));
    }
    assert!(!ReadOnlyApproval.approve("write_file"));
}

#[test]
fn plan_and_review_only_read() {
    for mode in [Mode::Plan, Mode::Build, Mode::Review] {
        for tool in ["list_files", "read_file", "search"] {
            assert!(approves(mode, false, false, tool));
        }
        assert!(!approves(mode, false, true, "mcp__server__tool"));
        assert!(!approves(mode, true, false, "write_file"));
        assert_eq!(approves(mode, true, true, "mcp__server__tool"), mode == Mode::Build);
        assert_eq!(Mode::named(mode.name()), Some(mode));
    }
    assert_eq!(Mode::Review.name(), "review");
    assert_eq!(Mode::named("exec"), None);
}
