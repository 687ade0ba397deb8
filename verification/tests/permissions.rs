use codehelm::paths::{inside, show_path, show_relative, PathPart};
use codehelm::permissions::{
    leaves, normalize, prefix_match, read_choice, resolve_inside, write_choice, Decision,
    PermissionError, PermissionPolicy, Probe, ResolveStep, Resolved, MAX_LINKS,
};

fn normal(name: &str) -> PathPart {
    PathPart::Normal(name.as_bytes().to_vec())
}

fn absolute(names: &[&str]) -> Vec<PathPart> {
    let mut parts = vec![PathPart::Root];
    parts.extend(names.iter().map(|name| normal(name)));
    parts
}

#[test]
fn commands_are_classified_safely() {
    let policy = PermissionPolicy::default();
    assert_eq!(policy.command_decision("cargo test"), Decision::Allow);
    assert_eq!(policy.command_decision("node script.js"), Decision::Ask);
    assert_eq!(policy.command_decision("rm -rf build"), Decision::Deny);
    assert_eq!(policy.command_decision("echo ok && rm -rf build"), Decision::Deny);
}

#[test]
fn sensitive_paths_are_denied() {
    let policy = PermissionPolicy::default();
    assert_eq!(policy.read_decision("nested/.env").unwrap(), Decision::Deny);
    assert_eq!(policy.write_decision("server.pem").unwrap(), Decision::Deny);
    assert_eq!(policy.read_decision("src/main.rs").unwrap(), Decision::Allow);
}

#[test]
fn write_ask_patterns_do_not_override_denials() {
    let policy = PermissionPolicy {
        ask_write: vec!["generated/**".to_owned(), ".env".to_owned()],
        ..PermissionPolicy::default()
    };
    assert_eq!(policy.write_decision("generated/code.rs").unwrap(), Decision::Ask);
    assert_eq!(policy.write_decision(".env").unwrap(), Decision::Deny);
}

#[test]
fn parent_paths_are_rejected() {
    let requested = vec![PathPart::Parent, normal("secret")];
    assert!(matches!(
        resolve_inside("../secret", false, &requested, ".", Ok(absolute(&["work"]))),
        Err(PermissionError::PathEscape(_))
    ));
}

#[test]
fn spaces_do_not_matter_and_empty_commands_are_denied() {
    let policy = PermissionPolicy::default();
    assert_eq!(policy.command_decision("  cargo \t test  --all"), Decision::Allow);
    assert_eq!(policy.command_decision("cargo testing"), Decision::Ask);
    assert_eq!(policy.command_decision("   "), Decision::Deny);
    assert_eq!(policy.command_decision("git log $(whoami)"), Decision::Deny);
    assert_eq!(policy.command_decision("git log `x`"), Decision::Deny);
    assert_eq!(policy.command_decision("git log | less"), Decision::Deny);
    assert_eq!(policy.command_decision("git log ; ls"), Decision::Deny);
    assert_eq!(policy.command_decision("git reset --hard HEAD"), Decision::Deny);
    assert_eq!(policy.command_decision("git reset"), Decision::Ask);
}

#[test]
fn denied_commands_stay_denied_when_allowed_too() {
    let policy = PermissionPolicy {
        allow_commands: vec!["rm".to_owned()],
        ..PermissionPolicy::default()
    };
    assert_eq!(policy.command_decision("rm x"), Decision::Deny);
    assert!(prefix_match("rm x", &policy.allow_commands));
    assert!(!prefix_match("rmdir x", &policy.allow_commands));
}

#[test]
fn invalid_globs_are_reported() {
    let policy = PermissionPolicy {
        deny_read: vec!["ok".to_owned(), "[".to_owned()],
        ..PermissionPolicy::default()
    };
    let error = policy.read_decision("x").unwrap_err();
    assert!(matches!(&error, PermissionError::InvalidGlob { pattern, .. } if pattern == "["));
    assert!(error.describe().starts_with("invalid permission glob [: "));
    let policy = PermissionPolicy {
        ask_write: vec!["{".to_owned()],
        ..PermissionPolicy::default()
    };
    assert_eq!(policy.write_decision(".env").unwrap(), Decision::Deny);
    assert!(policy.write_decision("x").is_err());
}

#[test]
fn paths_are_normalized_for_globs() {
    assert_eq!(normalize("././a\\b"), "a/b");
    assert_eq!(normalize("a/./b"), "a/./b");
    let policy = PermissionPolicy::default();
    assert_eq!(policy.read_decision("./.env").unwrap(), Decision::Deny);
    assert_eq!(policy.read_decision("nested\\.env").unwrap(), Decision::Deny);
    assert_eq!(policy.write_decision(".git/config").unwrap(), Decision::Deny);
    assert_eq!(policy.read_decision(".git/config").unwrap(), Decision::Allow);
}

#[test]
fn existing_paths_must_really_be_inside() {
    let requested = vec![normal("link")];
    let start = || {
        resolve_inside("link", false, &requested, "/work", Ok(absolute(&["work"]))).unwrap()
    };
    let mut resolver = start();
    assert_eq!(
        resolver.probed(Probe::Found { canonical: absolute(&["work", "real"]) }),
        ResolveStep::Done { result: Ok(Resolved::Existing(absolute(&["work", "real"]))) }
    );
    let mut resolver = start();
    assert_eq!(
        resolver.probed(Probe::Found { canonical: absolute(&["elsewhere"]) }),
        ResolveStep::Done { result: Err(PermissionError::PathEscape("link".to_owned())) }
    );
    let mut resolver = start();
    let failed = Probe::Failed { path: "/work/link".to_owned(), source: "loop".to_owned() };
    let ResolveStep::Done { result } = resolver.probed(failed) else {
        panic!("not done")
    };
    assert_eq!(result.unwrap_err().describe(), "failed to resolve path /work/link: loop");
}

#[test]
fn new_paths_are_judged_by_their_nearest_ancestor() {
    let requested = vec![normal("a"), normal("b")];
    let start = || {
        resolve_inside("a/b", false, &requested, "/work", Ok(absolute(&["work"]))).unwrap()
    };
    let mut resolver = start();
    assert_eq!(resolver.probed(Probe::Absent), ResolveStep::Probe { ancestor: 1 });
    assert_eq!(resolver.probed(Probe::Absent), ResolveStep::Probe { ancestor: 2 });
    assert_eq!(
        resolver.probed(Probe::Found { canonical: absolute(&["work"]) }),
        ResolveStep::Done { result: Ok(Resolved::New) }
    );
    let mut resolver = start();
    resolver.probed(Probe::Absent);
    let ResolveStep::Done { result } =
        resolver.probed(Probe::Found { canonical: absolute(&["outside"]) })
    else {
        panic!("not done")
    };
    assert_eq!(result.unwrap_err().describe(), "path escapes workspace: a/b");
    let mut resolver = start();
    assert_eq!(
        resolver.probed(Probe::Beyond),
        ResolveStep::Done { result: Ok(Resolved::New) }
    );
}

#[test]
fn an_unresolved_root_is_an_error() {
    let requested = vec![normal("a")];
    let Err(error) = resolve_inside("a", false, &requested, "/gone", Err("missing".to_owned()))
    else {
        panic!("resolved")
    };
    assert_eq!(error.describe(), "failed to resolve path /gone: missing");
    assert!(leaves(true, &requested));
    assert!(!leaves(false, &requested));
}

#[test]
fn containment_goes_by_whole_names() {
    assert!(inside(&absolute(&["work", "a"]), &absolute(&["work"])));
    assert!(!inside(&absolute(&["workshop"]), &absolute(&["work"])));
    assert!(!inside(&absolute(&[]), &absolute(&["work"])));
    assert_eq!(show_path(&absolute(&["work", "a"]), "/"), "/work/a");
    assert_eq!(
        show_relative(&absolute(&["work", "a", "b"]), &absolute(&["work"]), "/"),
        "a/b"
    );
    assert_eq!(show_relative(&absolute(&["x"]), &absolute(&["work"]), "/"), "/x");
    let odd = vec![PathPart::Current, PathPart::Parent, PathPart::Normal(vec![0xff, b'a'])];
    assert_eq!(show_path(&odd, "/"), "./../\u{fffd}a");
}

#[test]
fn denials_come_before_questions() {
    let fault = || PermissionError::InvalidGlob { pattern: "[".to_owned(), source: "x".to_owned() };
    assert_eq!(read_choice(Ok(true)), Ok(Decision::Deny));
    assert_eq!(read_choice(Ok(false)), Ok(Decision::Allow));
    assert_eq!(read_choice(Err(fault())), Err(fault()));
    assert_eq!(write_choice(Ok(true), Err(fault())), Ok(Decision::Deny));
    assert_eq!(write_choice(Err(fault()), Ok(true)), Err(fault()));
    assert_eq!(write_choice(Ok(false), Err(fault())), Err(fault()));
    assert_eq!(write_choice(Ok(false), Ok(true)), Ok(Decision::Ask));
    assert_eq!(write_choice(Ok(false), Ok(false)), Ok(Decision::Allow));
}

fn link(names: &[&str]) -> Probe {
    Probe::Link { target: absolute(names) }
}

#[test]
fn links_to_nothing_are_judged_by_where_they_would_lead() {
    let requested = vec![normal("a"), normal("link")];
    let start = || {
        resolve_inside("a/link", false, &requested, "/work", Ok(absolute(&["work"]))).unwrap()
    };
    let escape = || ResolveStep::Done {
        result: Err(PermissionError::PathEscape("a/link".to_owned())),
    };
    let mut resolver = start();
    assert_eq!(resolver.probed(link(&["outside", "x"])), ResolveStep::Follow { ancestor: 0 });
    assert_eq!(resolver.probed(Probe::Absent), ResolveStep::Follow { ancestor: 1 });
    assert_eq!(resolver.probed(Probe::Found { canonical: absolute(&["outside"]) }), escape());

    let mut resolver = start();
    resolver.probed(link(&["work", "x"]));
    resolver.probed(Probe::Absent);
    assert_eq!(
        resolver.probed(Probe::Found { canonical: absolute(&["work"]) }),
        ResolveStep::Probe { ancestor: 1 }
    );
    assert_eq!(
        resolver.probed(Probe::Found { canonical: absolute(&["work", "a"]) }),
        ResolveStep::Done { result: Ok(Resolved::New) }
    );

    let mut resolver = start();
    resolver.probed(link(&["work", "way", "x"]));
    resolver.probed(Probe::Absent);
    assert_eq!(resolver.probed(Probe::Found { canonical: absolute(&["outside"]) }), escape());

    let mut resolver = start();
    let mut target = absolute(&["work", "x"]);
    target.extend([PathPart::Parent, PathPart::Parent, normal("y")]);
    resolver.probed(Probe::Link { target });
    for ancestor in 1..5 {
        assert_eq!(resolver.probed(Probe::Absent), ResolveStep::Follow { ancestor });
    }
    assert_eq!(resolver.probed(Probe::Found { canonical: absolute(&["work"]) }), escape());

    let mut resolver = start();
    assert_eq!(resolver.probed(Probe::Absent), ResolveStep::Probe { ancestor: 1 });
    resolver.probed(link(&["outside"]));
    resolver.probed(Probe::Absent);
    resolver.probed(Probe::Absent);
    assert_eq!(resolver.probed(Probe::Absent), escape());
    let mut resolver = start();
    resolver.probed(link(&["outside"]));
    assert_eq!(resolver.probed(Probe::Beyond), escape());
}

#[test]
fn links_to_links_are_followed_so_far() {
    let requested = vec![normal("link")];
    let start = || {
        resolve_inside("link", false, &requested, "/work", Ok(absolute(&["work"]))).unwrap()
    };
    let mut resolver = start();
    resolver.probed(link(&["outside"]));
    resolver.probed(Probe::Absent);
    assert_eq!(resolver.probed(link(&["work", "x"])), ResolveStep::Follow { ancestor: 0 });
    resolver.probed(Probe::Absent);
    assert_eq!(
        resolver.probed(Probe::Found { canonical: absolute(&["work"]) }),
        ResolveStep::Probe { ancestor: 1 }
    );
    let mut resolver = start();
    for _ in 0..MAX_LINKS {
        assert_eq!(resolver.probed(link(&["work", "x"])), ResolveStep::Follow { ancestor: 0 });
    }
    let ResolveStep::Done { result } = resolver.probed(link(&["work", "x"])) else {
        panic!("not done")
    };
    assert_eq!(result.unwrap_err().describe(), "failed to resolve path link: too many links");
    let mut resolver = start();
    resolver.probed(link(&["work", "x"]));
    let denied = Probe::Failed { path: "/work/x".to_owned(), source: "denied".to_owned() };
    let ResolveStep::Done { result } = resolver.probed(denied) else {
        panic!("not done")
    };
    assert_eq!(result.unwrap_err().describe(), "failed to resolve path /work/x: denied");
}

#[test]
fn the_default_policy_holds() {
    let policy = PermissionPolicy::default();
    for command in [
        "git status", "git diff", "git log", "npm test", "npm run", "pnpm test", "pytest",
        "cargo test", "go test",
    ] {
        assert_eq!(policy.command_decision(command), Decision::Allow, "{command}");
        let spaced = format!(" {}  --flag ", command.replace(' ', "\t "));
        assert_eq!(policy.command_decision(&spaced), Decision::Allow, "{spaced}");
    }
    for command in [
        "rm", "sudo", "shutdown", "reboot", "mkfs", "dd", "git reset --hard", "git clean",
        "git push --force",
    ] {
        assert_eq!(policy.command_decision(command), Decision::Deny, "{command}");
        assert_eq!(policy.command_decision(&format!("{command} x")), Decision::Deny);
    }
    for path in [
        ".env", ".env.local", "a/.env", "a/.env.local", "k.pem", "a/k.pem", "k.key", "a/k.key",
        ".ssh/id_rsa", ".ssh/id_ed25519",
    ] {
        assert_eq!(policy.read_decision(path), Ok(Decision::Deny), "{path}");
    }
    for path in [
        ".git/config", ".git/a/b", ".env", ".env.local", "a/.env", "a/.env.local", "k.pem",
        "a/k.pem", "k.key", "a/k.key",
    ] {
        assert_eq!(policy.write_decision(path), Ok(Decision::Deny), "{path}");
    }
    for path in ["src/main.rs", "README.md", "environment", "a/pem"] {
        assert_eq!(policy.read_decision(path), Ok(Decision::Allow), "{path}");
        assert_eq!(policy.write_decision(path), Ok(Decision::Allow), "{path}");
    }
}

#[test]
fn questions_only_replace_permissions() {
    let plain = PermissionPolicy::default();
    let asking = PermissionPolicy {
        ask_write: vec!["**".to_owned()],
        ..PermissionPolicy::default()
    };
    for path in ["src/main.rs", ".env", "a/k.pem", ".git/config", "notes/a.txt"] {
        match plain.write_decision(path).unwrap() {
            Decision::Deny => assert_eq!(asking.write_decision(path), Ok(Decision::Deny)),
            Decision::Allow => assert_eq!(asking.write_decision(path), Ok(Decision::Ask)),
            Decision::Ask => panic!("asked without patterns"),
        }
    }
}
