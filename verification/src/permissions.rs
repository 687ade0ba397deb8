//! What an agent may run, read and write.
use globset::{Glob, GlobSet, GlobSetBuilder};
use vstd::prelude::*;

use crate::paths;
use crate::paths::{inside, PartV, PathPart};
use crate::text;
use crate::text::{
    cat2, cat4, forward_slashes_of, from_chars, holds_char, join, same_text, stands_at, to_chars,
    trim_prefix_of, words_of,
};

verus! {

/// Which commands, reads and writes are allowed, refused or asked about.
#[derive(Debug, Clone, PartialEq, Eq)]
pub struct PermissionPolicy {
    pub allow_commands: Vec<String>,
    pub deny_commands: Vec<String>,
    pub deny_read: Vec<String>,
    pub ask_write: Vec<String>,
    pub deny_write: Vec<String>,
}

/// What a policy says of a command, a read or a write.
#[derive(Debug, Clone, Copy, PartialEq, Eq, Structural)]
pub enum Decision {
    Allow,
    Ask,
    Deny,
}

/// The commands that run without being asked about.
pub open spec fn default_allow_commands() -> Seq<Seq<char>> {
    seq![
        "git status"@,
        "git diff"@,
        "git log"@,
        "npm test"@,
        "npm run"@,
        "pnpm test"@,
        "pytest"@,
        "cargo test"@,
        "go test"@,
    ]
}

/// The commands that never run.
pub open spec fn default_deny_commands() -> Seq<Seq<char>> {
    seq![
        "rm"@,
        "sudo"@,
        "shutdown"@,
        "reboot"@,
        "mkfs"@,
        "dd"@,
        "git reset --hard"@,
        "git clean"@,
        "git push --force"@,
    ]
}

/// The files that are never read.
pub open spec fn default_deny_read() -> Seq<Seq<char>> {
    seq![
        ".env"@,
        ".env.*"@,
        "**/.env"@,
        "**/.env.*"@,
        "*.pem"@,
        "**/*.pem"@,
        "*.key"@,
        "**/*.key"@,
        "**/id_rsa"@,
        "**/id_ed25519"@,
    ]
}

/// The files that are never written.
pub open spec fn default_deny_write() -> Seq<Seq<char>> {
    seq![
        ".git/**"@,
        ".env"@,
        ".env.*"@,
        "**/.env"@,
        "**/.env.*"@,
        "*.pem"@,
        "**/*.pem"@,
        "*.key"@,
        "**/*.key"@,
    ]
}

/// Whether a policy is the one that holds where nothing else is configured.
pub open spec fn is_default_policy(policy: PermissionPolicy) -> bool {
    &&& text::views(policy.allow_commands@) == default_allow_commands()
    &&& text::views(policy.deny_commands@) == default_deny_commands()
    &&& text::views(policy.deny_read@) == default_deny_read()
    &&& text::views(policy.ask_write@) == Seq::<Seq<char>>::empty()
    &&& text::views(policy.deny_write@) == default_deny_write()
}

/// Adds a text to a list.
fn list(texts: &mut Vec<String>, text: &str)
    ensures
        text::views(final(texts)@) == text::views(old(texts)@).push(text@),
{
    texts.push(text.to_owned());
    assert(text::views(texts@) == text::views(old(texts)@).push(text@));
}

impl Default for PermissionPolicy {
    fn default() -> (policy: Self)
        ensures
            is_default_policy(policy),
    {
        let mut allow_commands: Vec<String> = Vec::new();
        list(&mut allow_commands, "git status");
        list(&mut allow_commands, "git diff");
        list(&mut allow_commands, "git log");
        list(&mut allow_commands, "npm test");
        list(&mut allow_commands, "npm run");
        list(&mut allow_commands, "pnpm test");
        list(&mut allow_commands, "pytest");
        list(&mut allow_commands, "cargo test");
        list(&mut allow_commands, "go test");
        let mut deny_commands: Vec<String> = Vec::new();
        list(&mut deny_commands, "rm");
        list(&mut deny_commands, "sudo");
        list(&mut deny_commands, "shutdown");
        list(&mut deny_commands, "reboot");
        list(&mut deny_commands, "mkfs");
        list(&mut deny_commands, "dd");
        list(&mut deny_commands, "git reset --hard");
        list(&mut deny_commands, "git clean");
        list(&mut deny_commands, "git push --force");
        let mut deny_read: Vec<String> = Vec::new();
        list(&mut deny_read, ".env");
        list(&mut deny_read, ".env.*");
        list(&mut deny_read, "**/.env");
        list(&mut deny_read, "**/.env.*");
        list(&mut deny_read, "*.pem");
        list(&mut deny_read, "**/*.pem");
        list(&mut deny_read, "*.key");
        list(&mut deny_read, "**/*.key");
        list(&mut deny_read, "**/id_rsa");
        list(&mut deny_read, "**/id_ed25519");
        let mut deny_write: Vec<String> = Vec::new();
        list(&mut deny_write, ".git/**");
        list(&mut deny_write, ".env");
        list(&mut deny_write, ".env.*");
        list(&mut deny_write, "**/.env");
        list(&mut deny_write, "**/.env.*");
        list(&mut deny_write, "*.pem");
        list(&mut deny_write, "**/*.pem");
        list(&mut deny_write, "*.key");
        list(&mut deny_write, "**/*.key");
        let ask_write: Vec<String> = Vec::new();
        assert(text::views(ask_write@) == Seq::<Seq<char>>::empty());
        assert(text::views(allow_commands@) == default_allow_commands());
        assert(text::views(deny_commands@) == default_deny_commands());
        assert(text::views(deny_read@) == default_deny_read());
        assert(text::views(deny_write@) == default_deny_write());
        PermissionPolicy { allow_commands, deny_commands, deny_read, ask_write, deny_write }
    }
}

/// A command with its words one blank apart.
pub open spec fn normalized_command(command: Seq<char>) -> Seq<char> {
    text::join_text(text::words(command), " "@)
}

/// Whether a command would do more than run one program: it is empty or holds an operator of the
/// shell.
pub open spec fn is_compound(command: Seq<char>) -> bool {
    ||| command.len() == 0
    ||| command.contains(';')
    ||| command.contains('&')
    ||| command.contains('|')
    ||| command.contains('`')
    ||| command.contains('\n')
    ||| text::find(command, "$("@) is Some
}

/// Whether a command is the entry, or the entry and arguments.
pub open spec fn matches_entry(command: Seq<char>, entry: Seq<char>) -> bool {
    command == entry || (text::has_prefix(command, entry) && text::has_prefix(
        command.skip(entry.len() as int),
        " "@,
    ))
}

/// Whether a command matches one of the entries.
pub open spec fn prefix_matches(command: Seq<char>, entries: Seq<Seq<char>>) -> bool {
    exists|i: int| 0 <= i < entries.len() && matches_entry(command, #[trigger] entries[i])
}

/// What the lists of a policy say of a command.
pub open spec fn command_verdict(
    command: Seq<char>,
    deny: Seq<Seq<char>>,
    allow: Seq<Seq<char>>,
) -> Decision {
    let normalized = normalized_command(command);
    if is_compound(normalized) || prefix_matches(normalized, deny) {
        Decision::Deny
    } else if prefix_matches(normalized, allow) {
        Decision::Allow
    } else {
        Decision::Ask
    }
}

/// Whether a command matches one of the entries.
pub fn prefix_match(command: &str, entries: &Vec<String>) -> (matched: bool)
    ensures
        matched == prefix_matches(command@, text::views(entries@)),
{
    let chars = to_chars(command);
    let blank = to_chars(" ");
    for i in 0..entries.len()
        invariant
            chars@ == command@,
            blank@ == " "@,
            forall|j: int|
                0 <= j < i ==> !matches_entry(command@, #[trigger] text::views(entries@)[j]),
    {
        let entry = to_chars(entries[i].as_str());
        assert(entry@ == text::views(entries@)[i as int]);
        if same_text(command, entries[i].as_str()) {
            return true;
        }
        if stands_at(chars.as_slice(), entry.as_slice(), 0) {
            let rest = vstd::slice::slice_subrange(chars.as_slice(), entry.len(), chars.len());
            assert(rest@ == command@.skip(entry@.len() as int));
            if stands_at(rest, blank.as_slice(), 0) {
                return true;
            }
        }
    }
    false
}

impl PermissionPolicy {
    /// Whether a command may run.
    pub fn command_decision(&self, command: &str) -> (decision: Decision)
        ensures
            decision == command_verdict(
                command@,
                text::views(self.deny_commands@),
                text::views(self.allow_commands@),
            ),
    {
        let words = words_of(to_chars(command).as_slice());
        let normalized = join(&words, " ");
        let chars = to_chars(normalized.as_str());
        let opening = to_chars("$(");
        if chars.len() == 0 || holds_char(chars.as_slice(), ';') || holds_char(
            chars.as_slice(),
            '&',
        ) || holds_char(chars.as_slice(), '|') || holds_char(chars.as_slice(), '`') || holds_char(
            chars.as_slice(),
            '\n',
        ) || text::find_in(chars.as_slice(), opening.as_slice()).is_some() {
            return Decision::Deny;
        }
        if prefix_match(normalized.as_str(), &self.deny_commands) {
            Decision::Deny
        } else if prefix_match(normalized.as_str(), &self.allow_commands) {
            Decision::Allow
        } else {
            Decision::Ask
        }
    }
}

/// A denied command stays denied whatever the allowed ones are, and only a command that no deny
/// entry matches and some allow entry matches runs without being asked about.
pub proof fn law_denials_win(command: Seq<char>, deny: Seq<Seq<char>>, allow: Seq<Seq<char>>)
    ensures
        prefix_matches(normalized_command(command), deny) ==> command_verdict(command, deny, allow)
            == Decision::Deny,
        command_verdict(command, deny, allow) == Decision::Allow ==> !prefix_matches(
            normalized_command(command),
            deny,
        ) && prefix_matches(normalized_command(command), allow) && !is_compound(
            normalized_command(command),
        ),
{
}

/// A command that holds an operator of the shell is denied, wherever the operator stands and
/// whatever the lists say.
pub proof fn law_shell_operators_are_denied(
    command: Seq<char>,
    deny: Seq<Seq<char>>,
    allow: Seq<Seq<char>>,
    operator: char,
)
    requires
        operator == ';' || operator == '&' || operator == '|' || operator == '`',
        command.contains(operator),
    ensures
        command_verdict(command, deny, allow) == Decision::Deny,
{
    let i = command.index_of(operator);
    let w = text::lemma_words_keep(command, i);
    text::lemma_join_keeps(text::words(command), " "@, w, operator);
}

/// Whether the first `n` characters of a command are small letters, hyphens, and blanks that stand
/// alone between others.
pub open spec fn is_tidy(command: Seq<char>, n: nat) -> bool
    decreases n,
{
    n == 0 || {
        let c = command[n - 1];
        &&& ('a' <= c && c <= 'z') || c == '-' || (c == ' ' && 1 < n < command.len() && command[n as int]
            != ' ')
        &&& is_tidy(command, (n - 1) as nat)
    }
}

proof fn lemma_tidy_at(command: Seq<char>, n: nat, i: int)
    requires
        is_tidy(command, n),
        0 <= i < n,
    ensures
        ('a' <= command[i] && command[i] <= 'z') || command[i] == '-' || (command[i] == ' ' && 0 < i
            && i + 1 < command.len() && command[i + 1] != ' '),
    decreases n,
{
    if i < n - 1 {
        lemma_tidy_at(command, (n - 1) as nat, i);
    }
}

/// A tidy command is itself with its words one blank apart, and runs one program.
proof fn lemma_tidy(command: Seq<char>)
    requires
        command.len() > 0,
        is_tidy(command, command.len()),
    ensures
        normalized_command(command) == command,
        !is_compound(command),
{
    assert forall|i: int| 0 <= i < command.len() implies (('a' <= #[trigger] command[i] && command[i]
        <= 'z') || command[i] == '-' || (command[i] == ' ' && 0 < i && i + 1 < command.len()
        && command[i + 1] != ' ')) by {
        lemma_tidy_at(command, command.len(), i);
    }
    assert(text::is_spaced(command));
    text::lemma_spaced_is_joined(command);
    reveal_strlit("$(");
    text::lemma_find_from(command, "$("@, 0);
    if let Some(k) = text::find(command, "$("@) {
        assert(command.subrange(k as int, (k + 2) as int)[0] == command[k as int]);
        assert("$("@[0] == '$');
    }
}

/// Every default deny entry is told from every default allow entry by a character near its front.
proof fn lemma_default_entries_differ(command: Seq<char>, entry: Seq<char>)
    requires
        default_allow_commands().contains(command),
        default_deny_commands().contains(entry),
    ensures
        !matches_entry(command, entry),
{
    reveal_strlit("git status");
    reveal_strlit("git diff");
    reveal_strlit("git log");
    reveal_strlit("npm test");
    reveal_strlit("npm run");
    reveal_strlit("pnpm test");
    reveal_strlit("pytest");
    reveal_strlit("cargo test");
    reveal_strlit("go test");
    reveal_strlit("rm");
    reveal_strlit("sudo");
    reveal_strlit("shutdown");
    reveal_strlit("reboot");
    reveal_strlit("mkfs");
    reveal_strlit("dd");
    reveal_strlit("git reset --hard");
    reveal_strlit("git clean");
    reveal_strlit("git push --force");
    let c = command;
    let e = entry;
    assert(c.len() > 5 && (c[0] == 'n' || c[0] == 'p' || c[0] == 'c' || (c[0] == 'g' && (c[1] == 'o' || (
    c[4] == 's' || c[4] == 'd' || c[4] == 'l')))));
    assert(e.len() > 1 && (e[0] == 'r' || e[0] == 's' || e[0] == 'm' || e[0] == 'd' || (e.len() > 4
        && e[0] == 'g' && e[1] == 'i' && (e[4] == 'r' || e[4] == 'c' || e[4] == 'p'))));
    if matches_entry(c, e) && c != e {
        let front = c.subrange(0, e.len() as int);
        assert(front == e);
        assert(front[0] == c[0] && front[1] == c[1]);
        if e.len() > 4 {
            assert(front[4] == c[4]);
        }
    }
}

/// The default policy does what its lists say: each command that it allows runs without being asked
/// about, each that it denies is denied, and no write is asked about.
pub proof fn law_default_policy_holds(
    policy: PermissionPolicy,
    command: Seq<char>,
    path: Seq<char>,
    decision: Result<Decision, PermissionErrorV>,
)
    requires
        is_default_policy(policy),
        writes_as(
            text::views(policy.deny_write@),
            text::views(policy.ask_write@),
            path,
            decision,
        ),
    ensures
        text::views(policy.allow_commands@).contains(command) ==> command_verdict(
            command,
            text::views(policy.deny_commands@),
            text::views(policy.allow_commands@),
        ) == Decision::Allow,
        text::views(policy.deny_commands@).contains(command) ==> command_verdict(
            command,
            text::views(policy.deny_commands@),
            text::views(policy.allow_commands@),
        ) == Decision::Deny,
        decision != Ok::<Decision, PermissionErrorV>(Decision::Ask),
{
    law_no_question_without_ask_patterns(text::views(policy.deny_write@), path, decision);
    let deny = default_deny_commands();
    let allow = default_allow_commands();
    if allow.contains(command) || deny.contains(command) {
        lemma_default_entries_are_tidy(command);
        assert(matches_entry(command, command));
        if allow.contains(command) {
            if prefix_matches(command, deny) {
                let i = choose|i: int|
                    0 <= i < deny.len() && matches_entry(command, #[trigger] deny[i]);
                lemma_default_entries_differ(command, deny[i]);
            }
            let i = allow.index_of(command);
            assert(matches_entry(command, allow[i]));
        } else {
            let i = deny.index_of(command);
            assert(matches_entry(command, deny[i]));
        }
    }
}

/// Whether none of the first `n` characters of a glob is a backslash.
pub open spec fn no_backslash(pattern: Seq<char>, n: nat) -> bool
    decreases n,
{
    n == 0 || (pattern[n - 1] != '\\' && no_backslash(pattern, (n - 1) as nat))
}

proof fn lemma_no_backslash(pattern: Seq<char>, n: nat)
    requires
        no_backslash(pattern, n),
        n <= pattern.len(),
    ensures
        forall|i: int| 0 <= i < n ==> #[trigger] pattern[i] != '\\',
    decreases n,
{
    if n > 0 {
        lemma_no_backslash(pattern, (n - 1) as nat);
    }
}

/// The globs of the default policy mean the same on every system.
pub proof fn law_default_globs_are_portable(policy: PermissionPolicy)
    requires
        is_default_policy(policy),
    ensures
        all_portable(text::views(policy.deny_read@)),
        all_portable(text::views(policy.ask_write@)),
        all_portable(text::views(policy.deny_write@)),
{
    reveal_with_fuel(no_backslash, 16);
    reveal_strlit(".env");
    lemma_no_backslash(".env"@, ".env"@.len());
    reveal_strlit(".env.*");
    lemma_no_backslash(".env.*"@, ".env.*"@.len());
    reveal_strlit("**/.env");
    lemma_no_backslash("**/.env"@, "**/.env"@.len());
    reveal_strlit("**/.env.*");
    lemma_no_backslash("**/.env.*"@, "**/.env.*"@.len());
    reveal_strlit("*.pem");
    lemma_no_backslash("*.pem"@, "*.pem"@.len());
    reveal_strlit("**/*.pem");
    lemma_no_backslash("**/*.pem"@, "**/*.pem"@.len());
    reveal_strlit("*.key");
    lemma_no_backslash("*.key"@, "*.key"@.len());
    reveal_strlit("**/*.key");
    lemma_no_backslash("**/*.key"@, "**/*.key"@.len());
    reveal_strlit("**/id_rsa");
    lemma_no_backslash("**/id_rsa"@, "**/id_rsa"@.len());
    reveal_strlit("**/id_ed25519");
    lemma_no_backslash("**/id_ed25519"@, "**/id_ed25519"@.len());
    reveal_strlit(".git/**");
    lemma_no_backslash(".git/**"@, ".git/**"@.len());
}

proof fn lemma_default_entries_are_tidy(command: Seq<char>)
    requires
        default_allow_commands().contains(command) || default_deny_commands().contains(command),
    ensures
        normalized_command(command) == command,
        !is_compound(command),
{
    reveal_with_fuel(is_tidy, 18);
    reveal_strlit("git status");
    assert(is_tidy("git status"@, "git status"@.len()));
    lemma_tidy("git status"@);
    reveal_strlit("git diff");
    assert(is_tidy("git diff"@, "git diff"@.len()));
    lemma_tidy("git diff"@);
    reveal_strlit("git log");
    assert(is_tidy("git log"@, "git log"@.len()));
    lemma_tidy("git log"@);
    reveal_strlit("npm test");
    assert(is_tidy("npm test"@, "npm test"@.len()));
    lemma_tidy("npm test"@);
    reveal_strlit("npm run");
    assert(is_tidy("npm run"@, "npm run"@.len()));
    lemma_tidy("npm run"@);
    reveal_strlit("pnpm test");
    assert(is_tidy("pnpm test"@, "pnpm test"@.len()));
    lemma_tidy("pnpm test"@);
    reveal_strlit("pytest");
    assert(is_tidy("pytest"@, "pytest"@.len()));
    lemma_tidy("pytest"@);
    reveal_strlit("cargo test");
    assert(is_tidy("cargo test"@, "cargo test"@.len()));
    lemma_tidy("cargo test"@);
    reveal_strlit("go test");
    assert(is_tidy("go test"@, "go test"@.len()));
    lemma_tidy("go test"@);
    reveal_strlit("rm");
    assert(is_tidy("rm"@, "rm"@.len()));
    lemma_tidy("rm"@);
    reveal_strlit("sudo");
    assert(is_tidy("sudo"@, "sudo"@.len()));
    lemma_tidy("sudo"@);
    reveal_strlit("shutdown");
    assert(is_tidy("shutdown"@, "shutdown"@.len()));
    lemma_tidy("shutdown"@);
    reveal_strlit("reboot");
    assert(is_tidy("reboot"@, "reboot"@.len()));
    lemma_tidy("reboot"@);
    reveal_strlit("mkfs");
    assert(is_tidy("mkfs"@, "mkfs"@.len()));
    lemma_tidy("mkfs"@);
    reveal_strlit("dd");
    assert(is_tidy("dd"@, "dd"@.len()));
    lemma_tidy("dd"@);
    reveal_strlit("git reset --hard");
    assert(is_tidy("git reset --hard"@, "git reset --hard"@.len()));
    lemma_tidy("git reset --hard"@);
    reveal_strlit("git clean");
    assert(is_tidy("git clean"@, "git clean"@.len()));
    lemma_tidy("git clean"@);
    reveal_strlit("git push --force");
    assert(is_tidy("git push --force"@, "git push --force"@.len()));
    lemma_tidy("git push --force"@);
}

/// Why a path was refused or could not be judged.
#[derive(Debug, Clone, PartialEq, Eq)]
pub enum PermissionError {
    PathEscape(String),
    Resolve { path: String, source: String },
    InvalidGlob { pattern: String, source: String },
}

/// What a permission error says.
#[verifier::ext_equal]
pub enum PermissionErrorV {
    PathEscape(Seq<char>),
    Resolve { path: Seq<char>, source: Seq<char> },
    InvalidGlob { pattern: Seq<char>, source: Seq<char> },
}

impl View for PermissionError {
    type V = PermissionErrorV;

    open spec fn view(&self) -> PermissionErrorV {
        match *self {
            PermissionError::PathEscape(path) => PermissionErrorV::PathEscape(path@),
            PermissionError::Resolve { path, source } => PermissionErrorV::Resolve {
                path: path@,
                source: source@,
            },
            PermissionError::InvalidGlob { pattern, source } => PermissionErrorV::InvalidGlob {
                pattern: pattern@,
                source: source@,
            },
        }
    }
}

/// The message that a permission error shows.
pub open spec fn permission_text(error: PermissionErrorV) -> Seq<char> {
    match error {
        PermissionErrorV::PathEscape(path) => "path escapes workspace: "@ + path,
        PermissionErrorV::Resolve { path, source } => "failed to resolve path "@ + path + ": "@
            + source,
        PermissionErrorV::InvalidGlob { pattern, source } => "invalid permission glob "@ + pattern
            + ": "@ + source,
    }
}

impl PermissionError {
    /// The message that this error shows.
    pub fn describe(&self) -> (message: String)
        ensures
            message@ == permission_text(self@),
    {
        match self {
            PermissionError::PathEscape(path) => cat2("path escapes workspace: ", path.as_str()),
            PermissionError::Resolve { path, source } => cat4(
                "failed to resolve path ",
                path.as_str(),
                ": ",
                source.as_str(),
            ),
            PermissionError::InvalidGlob { pattern, source } => cat4(
                "invalid permission glob ",
                pattern.as_str(),
                ": ",
                source.as_str(),
            ),
        }
    }
}

/// One glob pattern of `globset`, parsed.
#[verifier::external_type_specification]
#[verifier::external_body]
pub struct GlobDeclared(Glob);

/// The patterns of `globset` that a set is built from.
#[verifier::external_type_specification]
#[verifier::external_body]
pub struct GlobSetBuilderDeclared(GlobSetBuilder);

/// A set of `globset` patterns.
#[verifier::external_type_specification]
#[verifier::external_body]
pub struct GlobSetDeclared(GlobSet);

/// The text that a glob was parsed from.
pub uninterp spec fn glob_pattern(glob: Glob) -> Seq<char>;

/// The texts of the globs that a builder holds, in order.
pub uninterp spec fn builder_patterns(builder: GlobSetBuilder) -> Seq<Seq<char>>;

/// The texts of the globs that a set was built from, in order.
pub uninterp spec fn set_patterns(set: GlobSet) -> Seq<Seq<char>>;

/// Why a text is no glob, where it is none.
pub uninterp spec fn glob_fault(pattern: Seq<char>) -> Option<Seq<char>>;

/// Whether globs cannot be a set on a machine with words of so many bits: the automaton of a set has
/// a limit that is counted in bytes.
pub uninterp spec fn set_fails(patterns: Seq<Seq<char>>, word_bits: u32) -> bool;

/// Whether a glob matches a path that has no backslash in it.
pub uninterp spec fn glob_matches(pattern: Seq<char>, path: Seq<char>) -> bool;

/// A glob that means the same on every system: a backslash separates names on some systems and
/// escapes a character on the others.
pub open spec fn is_portable(pattern: Seq<char>) -> bool {
    !pattern.contains('\\')
}

/// Whether a path certainly matches: a portable glob matches it.
pub open spec fn surely_matched(patterns: Seq<Seq<char>>, path: Seq<char>) -> bool {
    exists|i: int|
        0 <= i < patterns.len() && is_portable(#[trigger] patterns[i]) && glob_matches(
            patterns[i],
            path,
        )
}

/// Whether a path may match: a glob matches it, or one is not portable.
pub open spec fn maybe_matched(patterns: Seq<Seq<char>>, path: Seq<char>) -> bool {
    exists|i: int|
        0 <= i < patterns.len() && (!is_portable(#[trigger] patterns[i]) || glob_matches(
            patterns[i],
            path,
        ))
}

/// `Glob::new` parses a glob and keeps its text, or says why the text is none. What it says of a
/// glob with a backslash depends on the system.
#[verifier::external_body]
fn new_glob(pattern: &str) -> (glob: Result<Glob, String>)
    ensures
        match glob {
            Ok(g) => glob_pattern(g) == pattern@ && (is_portable(pattern@) ==> glob_fault(
                pattern@,
            ) is None),
            Err(e) => is_portable(pattern@) ==> glob_fault(pattern@) == Some(e@),
        },
{
    Glob::new(pattern).map_err(|error| error.to_string())
}

/// `GlobSetBuilder::new` holds no glob.
#[verifier::external_body]
fn new_builder() -> (builder: GlobSetBuilder)
    ensures
        builder_patterns(builder) == Seq::<Seq<char>>::empty(),
{
    GlobSetBuilder::new()
}

/// `GlobSetBuilder::add` adds one glob at the end.
#[verifier::external_body]
fn add_glob(builder: &mut GlobSetBuilder, glob: Glob)
    ensures
        builder_patterns(*final(builder)) == builder_patterns(*old(builder)).push(
            glob_pattern(glob),
        ),
{
    builder.add(glob);
}

/// `GlobSetBuilder::build` makes a set of the globs that were added, or says why it cannot. Whether
/// it can goes by the globs and the size of the machine's words alone; where one of the globs has a
/// backslash, it also depends on the system. Which text an error shows is left open: of several
/// globs that fail, any may come first.
#[verifier::external_body]
fn build_set(builder: &GlobSetBuilder) -> (set: Result<GlobSet, String>)
    ensures
        all_portable(builder_patterns(*builder)) ==> set is Err == set_fails(
            builder_patterns(*builder),
            usize::BITS,
        ),
        set matches Ok(s) ==> set_patterns(s) == builder_patterns(*builder),
{
    builder.build().map_err(|error| error.to_string())
}

/// `GlobSet::is_match` says whether any glob of the set matches the path. Of a glob with a
/// backslash nothing is said: what it matches depends on the system.
#[verifier::external_body]
fn set_matches(set: &GlobSet, path: &str) -> (matched: bool)
    requires
        !path@.contains('\\'),
    ensures
        (exists|i: int|
            0 <= i < set_patterns(*set).len() && is_portable(#[trigger] set_patterns(*set)[i])
                && glob_matches(set_patterns(*set)[i], path@)) ==> matched,
        matched ==> exists|i: int|
            0 <= i < set_patterns(*set).len() && (!is_portable(#[trigger] set_patterns(*set)[i])
                || glob_matches(set_patterns(*set)[i], path@)),
{
    set.is_match(path)
}

/// Whether all globs are portable.
pub open spec fn all_portable(patterns: Seq<Seq<char>>) -> bool {
    forall|i: int| 0 <= i < patterns.len() ==> is_portable(#[trigger] patterns[i])
}

/// The first of the globs from `from` on that is none, and why.
pub open spec fn first_fault(patterns: Seq<Seq<char>>, from: nat) -> Option<PermissionErrorV>
    decreases patterns.len() - from,
{
    if from >= patterns.len() {
        None
    } else {
        match glob_fault(patterns[from as int]) {
            Some(source) => Some(
                PermissionErrorV::InvalidGlob { pattern: patterns[from as int], source },
            ),
            None => first_fault(patterns, from + 1),
        }
    }
}

/// Whether globs can be used: each of them is one, and they can be a set.
pub open spec fn globs_work(patterns: Seq<Seq<char>>) -> bool {
    first_fault(patterns, 0) is None && !set_fails(patterns, usize::BITS)
}

/// Whether `error` is what portable globs that cannot be used are refused with: the first one that
/// is none, or the whole set.
pub open spec fn is_globs_fault(patterns: Seq<Seq<char>>, error: PermissionErrorV) -> bool {
    match first_fault(patterns, 0) {
        Some(fault) => error == fault,
        None => set_fails(patterns, usize::BITS) && (error matches PermissionErrorV::InvalidGlob {
            pattern,
            ..
        } && pattern == "<set>"@),
    }
}

/// The set of a list of globs.
fn build_globs(patterns: &Vec<String>) -> (set: Result<GlobSet, PermissionError>)
    ensures
        match set {
            Ok(s) => set_patterns(s) == text::views(patterns@) && (all_portable(
                text::views(patterns@),
            ) ==> globs_work(text::views(patterns@))),
            Err(e) => e@ is InvalidGlob && (all_portable(text::views(patterns@))
                ==> is_globs_fault(text::views(patterns@), e@)),
        },
{
    let ghost all = text::views(patterns@);
    let mut builder = new_builder();
    for i in 0..patterns.len()
        invariant
            all == text::views(patterns@),
            builder_patterns(builder) == all.take(i as int),
            all_portable(all) ==> first_fault(all, 0) == first_fault(all, i as nat),
    {
        assert(all[i as int] == patterns@[i as int]@);
        match new_glob(patterns[i].as_str()) {
            Ok(glob) => add_glob(&mut builder, glob),
            Err(source) => {
                return Err(PermissionError::InvalidGlob { pattern: patterns[i].clone(), source });
            },
        }
        assert(all.take(i + 1) == all.take(i as int).push(all[i as int]));
    }
    assert(all.take(patterns.len() as int) == all);
    match build_set(&builder) {
        Ok(set) => Ok(set),
        Err(source) => Err(PermissionError::InvalidGlob { pattern: "<set>".to_owned(), source }),
    }
}

/// A path as globs see it: with slashes, and without `./` in front.
pub open spec fn normalized_path(path: Seq<char>) -> Seq<char> {
    text::trim_prefix(text::forward_slashes(path), "./"@)
}

/// A path as globs see it.
pub fn normalize(path: &str) -> (normalized: String)
    ensures
        normalized@ == normalized_path(path@),
{
    let slashed = forward_slashes_of(to_chars(path).as_slice());
    from_chars(trim_prefix_of(slashed.as_slice(), "./"))
}

proof fn lemma_trim_prefix_keeps(s: Seq<char>, prefix: Seq<char>, c: char)
    requires
        !s.contains(c),
    ensures
        !text::trim_prefix(s, prefix).contains(c),
    decreases s.len(),
{
    if prefix.len() > 0 && text::has_prefix(s, prefix) {
        let rest = s.skip(prefix.len() as int);
        assert forall|i: int| 0 <= i < rest.len() implies rest[i] != c by {
            assert(rest[i] == s[i + prefix.len()]);
        }
        lemma_trim_prefix_keeps(rest, prefix, c);
    }
}

/// A normalized path has no backslash.
pub proof fn lemma_normalized_path(path: Seq<char>)
    ensures
        !normalized_path(path).contains('\\'),
{
    assert forall|i: int| 0 <= i < path.len() implies text::forward_slashes(path)[i] != '\\' by {}
    lemma_trim_prefix_keeps(text::forward_slashes(path), "./"@, '\\');
}

/// What a decision or its failure says.
pub open spec fn decision_result(result: Result<Decision, PermissionError>) -> Result<
    Decision,
    PermissionErrorV,
> {
    match result {
        Ok(decision) => Ok(decision),
        Err(error) => Err(error@),
    }
}

/// Whether one of the globs matches a path.
pub open spec fn any_matches(patterns: Seq<Seq<char>>, path: Seq<char>) -> bool {
    exists|i: int| 0 <= i < patterns.len() && glob_matches(#[trigger] patterns[i], path)
}

/// Whether `result` is what globs say of a path. Where all of them are portable, that is whether one
/// matches, or why they cannot be used; else a portable one that matches still counts, and a match
/// needs one that matches or is not portable.
pub open spec fn matched_as(
    patterns: Seq<Seq<char>>,
    path: Seq<char>,
    result: Result<bool, PermissionErrorV>,
) -> bool {
    match result {
        Ok(matched) => {
            &&& all_portable(patterns) ==> globs_work(patterns) && matched == any_matches(
                patterns,
                normalized_path(path),
            )
            &&& surely_matched(patterns, normalized_path(path)) ==> matched
            &&& matched ==> maybe_matched(patterns, normalized_path(path))
        },
        Err(error) => {
            &&& error is InvalidGlob
            &&& all_portable(patterns) ==> is_globs_fault(patterns, error)
        },
    }
}

/// What it comes to whether a path matched.
pub open spec fn match_result(result: Result<bool, PermissionError>) -> Result<
    bool,
    PermissionErrorV,
> {
    match result {
        Ok(matched) => Ok(matched),
        Err(error) => Err(error@),
    }
}

/// What is decided of a read, given whether its path is denied.
pub open spec fn read_chosen(denied: Result<bool, PermissionErrorV>) -> Result<
    Decision,
    PermissionErrorV,
> {
    match denied {
        Err(error) => Err(error),
        Ok(true) => Ok(Decision::Deny),
        Ok(false) => Ok(Decision::Allow),
    }
}

/// What is decided of a write, given whether its path is denied and whether it is asked about.
pub open spec fn write_chosen(
    denied: Result<bool, PermissionErrorV>,
    asked: Result<bool, PermissionErrorV>,
) -> Result<Decision, PermissionErrorV> {
    match (denied, asked) {
        (Err(error), _) => Err(error),
        (Ok(true), _) => Ok(Decision::Deny),
        (Ok(false), Err(error)) => Err(error),
        (Ok(false), Ok(true)) => Ok(Decision::Ask),
        (Ok(false), Ok(false)) => Ok(Decision::Allow),
    }
}

/// Whether `decision` is what globs say of a read.
pub open spec fn reads_as(
    deny: Seq<Seq<char>>,
    path: Seq<char>,
    decision: Result<Decision, PermissionErrorV>,
) -> bool {
    exists|denied: Result<bool, PermissionErrorV>|
        {
            &&& matched_as(deny, path, denied)
            &&& decision == #[trigger] read_chosen(denied)
        }
}

/// Whether `decision` is what globs say of a write. Those that ask are looked at only where those
/// that deny leave the write open.
pub open spec fn writes_as(
    deny: Seq<Seq<char>>,
    ask: Seq<Seq<char>>,
    path: Seq<char>,
    decision: Result<Decision, PermissionErrorV>,
) -> bool {
    exists|denied: Result<bool, PermissionErrorV>, asked: Result<bool, PermissionErrorV>|
        {
            &&& matched_as(deny, path, denied)
            &&& denied == Ok::<bool, PermissionErrorV>(false) ==> matched_as(ask, path, asked)
            &&& decision == #[trigger] write_chosen(denied, asked)
        }
}

/// Decides on a read, given whether its path is denied.
pub fn read_choice(denied: Result<bool, PermissionError>) -> (decision: Result<
    Decision,
    PermissionError,
>)
    ensures
        decision_result(decision) == read_chosen(match_result(denied)),
{
    match denied {
        Err(error) => Err(error),
        Ok(true) => Ok(Decision::Deny),
        Ok(false) => Ok(Decision::Allow),
    }
}

/// Decides on a write, given whether its path is denied and whether it is asked about.
pub fn write_choice(denied: Result<bool, PermissionError>, asked: Result<bool, PermissionError>) -> (
    decision: Result<Decision, PermissionError>)
    ensures
        decision_result(decision) == write_chosen(match_result(denied), match_result(asked)),
{
    match denied {
        Err(error) => Err(error),
        Ok(true) => Ok(Decision::Deny),
        Ok(false) => match asked {
            Err(error) => Err(error),
            Ok(true) => Ok(Decision::Ask),
            Ok(false) => Ok(Decision::Allow),
        },
    }
}

/// Whether one of the globs matches a path.
fn matched(patterns: &Vec<String>, path: &str) -> (result: Result<bool, PermissionError>)
    ensures
        matched_as(text::views(patterns@), path@, match_result(result)),
{
    let set = match build_globs(patterns) {
        Ok(set) => set,
        Err(error) => {
            return Err(error);
        },
    };
    let normalized = normalize(path);
    proof {
        lemma_normalized_path(path@);
        lemma_matches_agree(text::views(patterns@), normalized@);
    }
    Ok(set_matches(&set, normalized.as_str()))
}

impl PermissionPolicy {
    /// Whether a file may be read.
    pub fn read_decision(&self, path: &str) -> (decision: Result<Decision, PermissionError>)
        ensures
            reads_as(text::views(self.deny_read@), path@, decision_result(decision)),
    {
        let denied = matched(&self.deny_read, path);
        assert(matched_as(text::views(self.deny_read@), path@, match_result(denied)));
        read_choice(denied)
    }

    /// Whether a file may be written.
    pub fn write_decision(&self, path: &str) -> (decision: Result<Decision, PermissionError>)
        ensures
            writes_as(
                text::views(self.deny_write@),
                text::views(self.ask_write@),
                path@,
                decision_result(decision),
            ),
    {
        let denied = matched(&self.deny_write, path);
        let asked = match denied {
            Ok(false) => matched(&self.ask_write, path),
            _ => Ok(false),
        };
        assert(matched_as(text::views(self.deny_write@), path@, match_result(denied)));
        write_choice(denied, asked)
    }
}

/// Portable globs that can be used decide on every read: one that matches denies it, and nothing
/// else does.
pub proof fn law_reads_are_decided(
    deny: Seq<Seq<char>>,
    path: Seq<char>,
    decision: Result<Decision, PermissionErrorV>,
)
    requires
        reads_as(deny, path, decision),
        all_portable(deny),
    ensures
        globs_work(deny) ==> decision == Ok::<Decision, PermissionErrorV>(
            if any_matches(deny, normalized_path(path)) {
                Decision::Deny
            } else {
                Decision::Allow
            },
        ),
        !globs_work(deny) ==> decision is Err,
{
}

/// Portable globs that can be used decide on every write: one that denies and matches denies it,
/// else one that asks and matches has it asked about, else it is allowed.
pub proof fn law_writes_are_decided(
    deny: Seq<Seq<char>>,
    ask: Seq<Seq<char>>,
    path: Seq<char>,
    decision: Result<Decision, PermissionErrorV>,
)
    requires
        writes_as(deny, ask, path, decision),
        all_portable(deny),
    ensures
        !globs_work(deny) ==> decision is Err,
        globs_work(deny) && any_matches(deny, normalized_path(path)) ==> decision == Ok::<
            Decision,
            PermissionErrorV,
        >(Decision::Deny),
        globs_work(deny) && !any_matches(deny, normalized_path(path)) && all_portable(ask)
            && globs_work(ask) ==> decision == Ok::<Decision, PermissionErrorV>(
            if any_matches(ask, normalized_path(path)) {
                Decision::Ask
            } else {
                Decision::Allow
            },
        ),
        globs_work(deny) && !any_matches(deny, normalized_path(path)) && all_portable(ask)
            && !globs_work(ask) ==> decision is Err,
{
}

/// A pattern that asks never lifts one that denies, nor denies anything: whatever the ask globs are,
/// a write that a portable deny glob matches is neither allowed nor asked about, and where the deny
/// globs are portable and can be used, exactly the writes that one of them matches are denied.
pub proof fn law_ask_never_overrides_deny(
    deny: Seq<Seq<char>>,
    ask: Seq<Seq<char>>,
    other: Seq<Seq<char>>,
    path: Seq<char>,
    decision: Result<Decision, PermissionErrorV>,
    second: Result<Decision, PermissionErrorV>,
)
    requires
        writes_as(deny, ask, path, decision),
        writes_as(deny, other, path, second),
    ensures
        surely_matched(deny, normalized_path(path)) && decision is Ok ==> decision->Ok_0
            == Decision::Deny,
        all_portable(deny) && globs_work(deny) ==> {
            let denied = Ok::<Decision, PermissionErrorV>(Decision::Deny);
            &&& decision == denied <==> second == denied
            &&& decision == denied <==> any_matches(deny, normalized_path(path))
        },
{
}

/// Without a pattern that asks, no write is asked about.
pub proof fn law_no_question_without_ask_patterns(
    deny: Seq<Seq<char>>,
    path: Seq<char>,
    decision: Result<Decision, PermissionErrorV>,
)
    requires
        writes_as(deny, seq![], path, decision),
    ensures
        decision != Ok::<Decision, PermissionErrorV>(Decision::Ask),
{
}

proof fn lemma_matches_agree(patterns: Seq<Seq<char>>, path: Seq<char>)
    ensures
        all_portable(patterns) ==> surely_matched(patterns, path) == any_matches(patterns, path),
        all_portable(patterns) ==> maybe_matched(patterns, path) == any_matches(patterns, path),
{
    if any_matches(patterns, path) {
        let i = choose|i: int| 0 <= i < patterns.len() && glob_matches(#[trigger] patterns[i], path);
        assert(glob_matches(patterns[i], path));
    }
}

/// Whether a requested path leaves the workspace by its own words: it is absolute, or steps up.
pub open spec fn steps_out(absolute: bool, parts: Seq<PartV>) -> bool {
    absolute || parts.contains(PartV::Parent)
}

/// Where a requested path leads.
#[derive(Debug, Clone, PartialEq, Eq)]
pub enum Resolved {
    /// It exists, and this is where it really is.
    Existing(Vec<PathPart>),
    /// It does not exist yet; it is the workspace and the requested path.
    New,
}

/// Where a requested path leads, in the model.
#[verifier::ext_equal]
pub enum ResolvedV {
    Existing(Seq<PartV>),
    New,
}

impl View for Resolved {
    type V = ResolvedV;

    open spec fn view(&self) -> ResolvedV {
        match *self {
            Resolved::Existing(parts) => ResolvedV::Existing(paths::part_views(parts@)),
            Resolved::New => ResolvedV::New,
        }
    }
}

/// How many links are followed, from one to the next, before a path counts as one that cannot be
/// resolved.
pub const MAX_LINKS: usize = 40;

/// What the file system says of a path.
pub enum Probe {
    /// Nothing is there.
    Absent,
    /// Something is there, and this is where it really is.
    Found { canonical: Vec<PathPart> },
    /// A link is there that leads to nothing. This is the path that it stands for: what the link
    /// says, seen from where the link really is, and behind it what was below the link.
    Link { target: Vec<PathPart> },
    /// Something is there and cannot be resolved.
    Failed { path: String, source: String },
    /// There is no such path: the one before had no parent.
    Beyond,
}

/// What the file system says of a path, in the model.
#[verifier::ext_equal]
pub enum ProbeV {
    Absent,
    Found { canonical: Seq<PartV> },
    Link { target: Seq<PartV> },
    Failed { path: Seq<char>, source: Seq<char> },
    Beyond,
}

impl View for Probe {
    type V = ProbeV;

    open spec fn view(&self) -> ProbeV {
        match *self {
            Probe::Absent => ProbeV::Absent,
            Probe::Found { canonical } => ProbeV::Found {
                canonical: paths::part_views(canonical@),
            },
            Probe::Link { target } => ProbeV::Link { target: paths::part_views(target@) },
            Probe::Failed { path, source } => ProbeV::Failed { path: path@, source: source@ },
            Probe::Beyond => ProbeV::Beyond,
        }
    }
}

/// What to do to resolve a path.
#[derive(Debug, PartialEq)]
pub enum ResolveStep {
    /// Look at the ancestor of the joined path that is so many parents up, itself at zero.
    Probe { ancestor: usize },
    /// Look at the ancestor of the path that the last link stands for that is so many parents up,
    /// itself at zero.
    Follow { ancestor: usize },
    /// Nothing: it is resolved or refused.
    Done { result: Result<Resolved, PermissionError> },
}

/// The outcome of resolving a path, in the model.
pub type ResolutionV = Result<ResolvedV, PermissionErrorV>;

/// What to do to resolve a path, in the model.
#[verifier::ext_equal]
pub enum ResolveStepV {
    Probe { ancestor: usize },
    Follow { ancestor: usize },
    Done { result: ResolutionV },
}

impl View for ResolveStep {
    type V = ResolveStepV;

    open spec fn view(&self) -> ResolveStepV {
        match *self {
            ResolveStep::Probe { ancestor } => ResolveStepV::Probe { ancestor },
            ResolveStep::Follow { ancestor } => ResolveStepV::Follow { ancestor },
            ResolveStep::Done { result } => ResolveStepV::Done { result: resolution(result) },
        }
    }
}

/// What the outcome of resolving a path says.
pub open spec fn resolution(result: Result<Resolved, PermissionError>) -> ResolutionV {
    match result {
        Ok(resolved) => Ok(resolved@),
        Err(error) => Err(error@),
    }
}

/// A link that is followed: the path that it stands for, and how many of its last parts were found
/// not to exist.
#[verifier::ext_equal]
pub struct TrailV {
    pub target: Seq<PartV>,
    pub up: usize,
}

/// A path on its way to being resolved below a root, in the model: how many paths were looked at on
/// the way up, none of which exists, and the link that is followed, with how many came before it.
#[verifier::ext_equal]
pub struct ResolverV {
    pub root: Seq<PartV>,
    pub requested: Seq<char>,
    pub ancestor: usize,
    pub links: usize,
    pub trail: Option<TrailV>,
}

/// What resolving starts with.
pub open spec fn fresh_resolver(root: Seq<PartV>, requested: Seq<char>) -> ResolverV {
    ResolverV { root, requested, ancestor: 0, links: 0, trail: None }
}

/// A resolver in order: no more was found not to exist than there is.
pub open spec fn resolves_in_order(resolver: ResolverV) -> bool {
    &&& resolver.links <= MAX_LINKS
    &&& resolver.trail matches Some(trail) ==> trail.up <= trail.target.len()
}

/// Whether something that does not exist would be inside the root: its path goes down from there.
pub open spec fn would_be_inside(target: Seq<PartV>, root: Seq<PartV>) -> bool {
    paths::is_inside(target, root) && !target.contains(PartV::Parent)
}

/// Where a link leads, once the nearest thing that exists on the way was found: from where that
/// really is down the parts that do not exist.
pub open spec fn led_to(trail: TrailV, probe: ProbeV) -> Option<Seq<PartV>> {
    match probe {
        ProbeV::Found { canonical } => Some(
            canonical + trail.target.skip(trail.target.len() - trail.up),
        ),
        ProbeV::Beyond => Some(trail.target),
        ProbeV::Absent => if trail.up < trail.target.len() {
            None
        } else {
            Some(trail.target)
        },
        _ => None,
    }
}

/// What a probe makes of a path: the first thing that exists, on the way up from the joined path,
/// must really be inside the root, and so must be what a link in front of it leads to.
pub open spec fn resolve_step(resolver: ResolverV, probe: ProbeV) -> (ResolverV, ResolveStepV) {
    let up = ResolverV {
        ancestor: (resolver.ancestor + 1) as usize,
        links: 0,
        trail: None,
        ..resolver
    };
    let escape = ResolveStepV::Done { result: Err(PermissionErrorV::PathEscape(resolver.requested)) };
    match (probe, resolver.trail) {
        (ProbeV::Failed { path, source }, _) => (
            resolver,
            ResolveStepV::Done { result: Err(PermissionErrorV::Resolve { path, source }) },
        ),
        (ProbeV::Link { target }, _) => if resolver.links < MAX_LINKS {
            (
                ResolverV {
                    links: (resolver.links + 1) as usize,
                    trail: Some(TrailV { target, up: 0 }),
                    ..resolver
                },
                ResolveStepV::Follow { ancestor: 0 },
            )
        } else {
            (
                resolver,
                ResolveStepV::Done {
                    result: Err(
                        PermissionErrorV::Resolve {
                            path: resolver.requested,
                            source: "too many links"@,
                        },
                    ),
                },
            )
        },
        (_, Some(trail)) => match led_to(trail, probe) {
            Some(place) => if would_be_inside(place, resolver.root) {
                (up, ResolveStepV::Probe { ancestor: up.ancestor })
            } else {
                (ResolverV { trail: None, ..resolver }, escape)
            },
            None => {
                let next = TrailV { up: (trail.up + 1) as usize, ..trail };
                (
                    ResolverV { trail: Some(next), ..resolver },
                    ResolveStepV::Follow { ancestor: next.up },
                )
            },
        },
        (ProbeV::Absent, None) => (up, ResolveStepV::Probe { ancestor: up.ancestor }),
        (ProbeV::Found { canonical }, None) => (
            resolver,
            if !paths::is_inside(canonical, resolver.root) {
                escape
            } else if resolver.ancestor == 0 {
                ResolveStepV::Done { result: Ok(ResolvedV::Existing(canonical)) }
            } else {
                ResolveStepV::Done { result: Ok(ResolvedV::New) }
            },
        ),
        (ProbeV::Beyond, None) => (resolver, ResolveStepV::Done { result: Ok(ResolvedV::New) }),
    }
}

/// A path on its way to being resolved below a root.
pub struct Resolver {
    root: Vec<PathPart>,
    requested: String,
    ancestor: usize,
    links: usize,
    trail: Option<(Vec<PathPart>, usize)>,
}

impl View for Resolver {
    type V = ResolverV;

    closed spec fn view(&self) -> ResolverV {
        ResolverV {
            root: paths::part_views(self.root@),
            requested: self.requested@,
            ancestor: self.ancestor,
            links: self.links,
            trail: match self.trail {
                Some((target, up)) => Some(TrailV { target: paths::part_views(target@), up }),
                None => None,
            },
        }
    }
}

impl Resolver {
    /// Goes on with the next ancestor of the joined path.
    fn go_up(&mut self) -> (step: ResolveStep)
        requires
            old(self)@.ancestor < usize::MAX,
        ensures
            final(self)@ == (ResolverV {
                ancestor: (old(self)@.ancestor + 1) as usize,
                links: 0,
                trail: None,
                ..old(self)@
            }),
            step@ == (ResolveStepV::Probe { ancestor: final(self)@.ancestor }),
    {
        self.ancestor = self.ancestor + 1;
        self.links = 0;
        self.trail = None;
        ResolveStep::Probe { ancestor: self.ancestor }
    }

    /// Judges where the link that was followed leads.
    fn judge(&mut self, place: Vec<PathPart>) -> (step: ResolveStep)
        requires
            old(self)@.ancestor < usize::MAX,
        ensures
            if would_be_inside(paths::part_views(place@), old(self)@.root) {
                &&& final(self)@ == (ResolverV {
                    ancestor: (old(self)@.ancestor + 1) as usize,
                    links: 0,
                    trail: None,
                    ..old(self)@
                })
                &&& step@ == (ResolveStepV::Probe { ancestor: final(self)@.ancestor })
            } else {
                &&& final(self)@ == old(self)@
                &&& step@ == (ResolveStepV::Done {
                    result: Err(PermissionErrorV::PathEscape(old(self)@.requested)),
                })
            },
    {
        if inside(place.as_slice(), self.root.as_slice()) && !leaves(false, &place) {
            self.go_up()
        } else {
            ResolveStep::Done { result: Err(PermissionError::PathEscape(self.requested.clone())) }
        }
    }

    /// Takes what the file system says of the path that was asked about last.
    pub fn probed(&mut self, probe: Probe) -> (step: ResolveStep)
        requires
            resolves_in_order(old(self)@),
            old(self)@.ancestor < usize::MAX,
        ensures
            (final(self)@, step@) == resolve_step(old(self)@, probe@),
            resolves_in_order(final(self)@),
    {
        match probe {
            Probe::Failed { path, source } => {
                return ResolveStep::Done { result: Err(PermissionError::Resolve { path, source }) };
            },
            Probe::Link { target } => {
                if self.links < MAX_LINKS {
                    self.links = self.links + 1;
                    self.trail = Some((target, 0));
                    return ResolveStep::Follow { ancestor: 0 };
                }
                return ResolveStep::Done {
                    result: Err(
                        PermissionError::Resolve {
                            path: self.requested.clone(),
                            source: "too many links".to_owned(),
                        },
                    ),
                };
            },
            _ => {},
        }
        match self.trail.take() {
            Some((target, up)) => {
                let mut target = target;
                match probe {
                    Probe::Found { canonical } => {
                        let ghost whole = paths::part_views(target@);
                        let ghost found = paths::part_views(canonical@);
                        let at: usize = target.len() - up;
                        let mut rest = target.split_off(at);
                        let mut place = canonical;
                        place.append(&mut rest);
                        assert(paths::part_views(place@) == found + whole.skip(at as int));
                        self.judge(place)
                    },
                    Probe::Absent if up < target.len() => {
                        self.trail = Some((target, up + 1));
                        ResolveStep::Follow { ancestor: up + 1 }
                    },
                    _ => self.judge(target),
                }
            },
            None => match probe {
                Probe::Absent => self.go_up(),
                Probe::Found { canonical } => {
                    let result = if !inside(canonical.as_slice(), self.root.as_slice()) {
                        Err(PermissionError::PathEscape(self.requested.clone()))
                    } else if self.ancestor == 0 {
                        Ok(Resolved::Existing(canonical))
                    } else {
                        Ok(Resolved::New)
                    };
                    ResolveStep::Done { result }
                },
                _ => ResolveStep::Done { result: Ok(Resolved::New) },
            },
        }
    }
}

/// Starts to resolve a path below a root: refuses it where it steps out by its own words, and
/// takes the root as the file system resolved it or failed to.
pub fn resolve_inside(
    requested: &str,
    absolute: bool,
    parts: &Vec<PathPart>,
    root_path: &str,
    root: Result<Vec<PathPart>, String>,
) -> (resolver: Result<Resolver, PermissionError>)
    ensures
        match resolver {
            Ok(r) => {
                &&& !steps_out(absolute, paths::part_views(parts@))
                &&& root matches Ok(canonical) && r@ == fresh_resolver(
                    paths::part_views(canonical@),
                    requested@,
                )
            },
            Err(e) => {
                ||| steps_out(absolute, paths::part_views(parts@)) && e@
                    == PermissionErrorV::PathEscape(requested@)
                ||| !steps_out(absolute, paths::part_views(parts@)) && (root matches Err(source)
                    && e@ == (PermissionErrorV::Resolve { path: root_path@, source: source@ }))
            },
        },
{
    if leaves(absolute, parts) {
        return Err(PermissionError::PathEscape(requested.to_owned()));
    }
    match root {
        Ok(root) => Ok(
            Resolver { root, requested: requested.to_owned(), ancestor: 0, links: 0, trail: None },
        ),
        Err(source) => Err(PermissionError::Resolve { path: root_path.to_owned(), source }),
    }
}

/// Whether a requested path leaves the workspace by its own words. Where it does, there is no need
/// to look at the file system.
pub fn leaves(absolute: bool, parts: &Vec<PathPart>) -> (out: bool)
    ensures
        out == steps_out(absolute, paths::part_views(parts@)),
{
    if absolute {
        return true;
    }
    for i in 0..parts.len()
        invariant
            forall|j: int| 0 <= j < i ==> paths::part_views(parts@)[j] != PartV::Parent,
    {
        if matches!(parts[i], PathPart::Parent) {
            assert(paths::part_views(parts@)[i as int] == PartV::Parent);
            return true;
        }
    }
    false
}

/// What probes make of a path, one after the other, and what they decide.
pub open spec fn resolve_run(resolver: ResolverV, probes: Seq<ProbeV>) -> (
    ResolverV,
    Option<ResolutionV>,
)
    decreases probes.len(),
{
    if probes.len() == 0 {
        (resolver, None)
    } else {
        let (before, decided) = resolve_run(resolver, probes.drop_last());
        if decided is Some {
            (before, decided)
        } else {
            match resolve_step(before, probes.last()) {
                (after, ResolveStepV::Done { result }) => (after, Some(result)),
                (after, _) => (after, None),
            }
        }
    }
}

/// Whether probe `i` is the first of the joined path and its ancestors that found something, and
/// found it inside the root, or found that there is nothing up to the topmost directory.
pub open spec fn settles(resolver: ResolverV, probes: Seq<ProbeV>, i: int) -> bool {
    let (before, decided) = resolve_run(resolver, probes.take(i));
    &&& 0 <= i < probes.len()
    &&& decided is None
    &&& before.trail is None
    &&& match probes[i] {
        ProbeV::Found { canonical } => paths::is_inside(canonical, resolver.root),
        probe => probe is Beyond,
    }
}

/// Whether a link that was followed up to probe `i` leads to a place inside the root.
pub open spec fn leads_inside(resolver: ResolverV, probes: Seq<ProbeV>, i: int) -> bool {
    resolve_run(resolver, probes.take(i)).0.trail matches Some(trail) ==> (led_to(
        trail,
        probes[i],
    ) matches Some(place) ==> would_be_inside(place, resolver.root))
}

proof fn lemma_resolve_run(resolver: ResolverV, probes: Seq<ProbeV>)
    requires
        resolver.trail is None,
    ensures
        ({
            let (after, decided) = resolve_run(resolver, probes);
            &&& after.root == resolver.root
            &&& after.requested == resolver.requested
            &&& match decided {
                None => forall|i: int|
                    0 <= i < probes.len() ==> #[trigger] leads_inside(resolver, probes, i),
                Some(Ok(ResolvedV::Existing(canonical))) => paths::is_inside(
                    canonical,
                    resolver.root,
                ),
                Some(Ok(ResolvedV::New)) => exists|i: int| #[trigger]
                    settles(resolver, probes, i) && forall|j: int|
                        0 <= j < i ==> #[trigger] leads_inside(resolver, probes, j),
                Some(Err(_)) => true,
            }
        }),
    decreases probes.len(),
{
    if probes.len() > 0 {
        let front = probes.drop_last();
        let last = probes.len() - 1;
        lemma_resolve_run(resolver, front);
        assert(probes.take(last) == front);
        assert forall|i: int| 0 <= i < last && leads_inside(
            resolver,
            front,
            i,
        ) implies #[trigger] leads_inside(resolver, probes, i) by {
            assert(front.take(i) == probes.take(i));
        }
        match resolve_run(resolver, front).1 {
            Some(Ok(ResolvedV::New)) => {
                let i = choose|i: int| #[trigger]
                    settles(resolver, front, i) && forall|j: int|
                        0 <= j < i ==> #[trigger] leads_inside(resolver, front, j);
                assert(front.take(i) == probes.take(i));
                assert(settles(resolver, probes, i));
                assert forall|j: int| 0 <= j < i implies #[trigger] leads_inside(
                    resolver,
                    probes,
                    j,
                ) by {
                    assert(leads_inside(resolver, front, j));
                }
            },
            Some(_) => {},
            None => {
                assert forall|i: int| 0 <= i < last implies #[trigger] leads_inside(
                    resolver,
                    probes,
                    i,
                ) by {
                    assert(leads_inside(resolver, front, i));
                }
                match resolve_run(resolver, probes).1 {
                    Some(Ok(ResolvedV::New)) => {
                        assert(settles(resolver, probes, last));
                    },
                    Some(_) => {},
                    None => {
                        assert(leads_inside(resolver, probes, last));
                    },
                }
            },
        }
    }
}

/// Whatever the file system says, a path that exists and is accepted really is inside the root, and
/// one that does not exist is accepted only where the nearest ancestor that exists is, and every
/// link in front of it that leads to nothing stands for a place inside the root.
pub proof fn law_accepted_paths_are_contained(
    root: Seq<PartV>,
    requested: Seq<char>,
    probes: Seq<ProbeV>,
)
    ensures
        match resolve_run(fresh_resolver(root, requested), probes).1 {
            Some(Ok(ResolvedV::Existing(canonical))) => paths::is_inside(canonical, root),
            Some(Ok(ResolvedV::New)) => exists|i: int| #[trigger]
                settles(fresh_resolver(root, requested), probes, i) && forall|j: int|
                    0 <= j < i ==> #[trigger] leads_inside(
                        fresh_resolver(root, requested),
                        probes,
                        j,
                    ),
            _ => true,
        },
{
    lemma_resolve_run(fresh_resolver(root, requested), probes);
}

/// A link that leads out of the root is refused, whether or not what it leads to exists.
pub proof fn law_links_out_are_refused(resolver: ResolverV, probe: ProbeV, place: Seq<PartV>)
    requires
        match resolver.trail {
            Some(trail) => led_to(trail, probe) == Some(place),
            None => probe == (ProbeV::Found { canonical: place }),
        },
        !paths::is_inside(place, resolver.root),
    ensures
        resolve_step(resolver, probe).1 == (ResolveStepV::Done {
            result: Err(PermissionErrorV::PathEscape(resolver.requested)),
        }),
{
}

/// Links that lead to links are followed so far and no further: after so many in a row, the path is
/// refused.
pub proof fn law_link_chains_are_bounded(resolver: ResolverV, target: Seq<PartV>)
    requires
        resolves_in_order(resolver),
    ensures
        resolve_step(resolver, ProbeV::Link { target }).0.links <= MAX_LINKS,
        resolver.links == MAX_LINKS ==> resolve_step(resolver, ProbeV::Link { target }).1 == (
        ResolveStepV::Done {
            result: Err(
                PermissionErrorV::Resolve {
                    path: resolver.requested,
                    source: "too many links"@,
                },
            ),
        }),
{
}

/// A command is judged by its words, one blank apart. It is denied where there are none, where it
/// holds an operator of the shell, or where it is a denied entry, alone or with arguments; else it is
/// allowed where it is an allowed entry in that way, and asked about where it is neither.
pub proof fn law_commands_are_decided(
    command: Seq<char>,
    deny: Seq<Seq<char>>,
    allow: Seq<Seq<char>>,
)
    ensures
        ({
            let plain = text::join_text(text::words(command), " "@);
            let starts = |entries: Seq<Seq<char>>|
                exists|i: int|
                    0 <= i < entries.len() && (plain == #[trigger] entries[i] || (entries[i]
                        + " "@).is_prefix_of(plain));
            let operator = plain.contains(';') || plain.contains('&') || plain.contains('|')
                || plain.contains('`') || plain.contains('\n') || exists|i: int|
                0 <= i < plain.len() - 1 && #[trigger] plain[i] == '$' && plain[i + 1] == '(';
            let verdict = command_verdict(command, deny, allow);
            &&& verdict == Decision::Deny <==> plain.len() == 0 || operator || starts(deny)
            &&& verdict == Decision::Allow <==> plain.len() > 0 && !operator && !starts(deny)
                && starts(allow)
            &&& verdict == Decision::Ask <==> plain.len() > 0 && !operator && !starts(deny)
                && !starts(allow)
        }),
{
    let plain = text::join_text(text::words(command), " "@);
    reveal_strlit("$(");
    reveal_strlit(" ");
    text::lemma_find_from(plain, "$("@, 0);
    if text::find(plain, "$("@) is Some {
        let k = text::find(plain, "$("@)->0 as int;
        let here = plain.subrange(k, k + 2);
        assert(here == "$("@);
        assert(here[0] == plain[k] && here[1] == plain[k + 1]);
    }
    if exists|i: int| 0 <= i < plain.len() - 1 && #[trigger] plain[i] == '$' && plain[i + 1] == '(' {
        let i = choose|i: int|
            0 <= i < plain.len() - 1 && #[trigger] plain[i] == '$' && plain[i + 1] == '(';
        assert(plain.subrange(i, i + 2) == "$("@);
        assert(text::occurs_at(plain, "$("@, i));
    }
    lemma_entries_start(plain, deny);
    lemma_entries_start(plain, allow);
}

proof fn lemma_entries_start(plain: Seq<char>, entries: Seq<Seq<char>>)
    ensures
        prefix_matches(plain, entries) <==> exists|i: int|
            0 <= i < entries.len() && (plain == #[trigger] entries[i] || (entries[i]
                + " "@).is_prefix_of(plain)),
{
    reveal_strlit(" ");
    assert forall|i: int| 0 <= i < entries.len() implies matches_entry(plain, #[trigger] entries[i])
        == (plain == entries[i] || (entries[i] + " "@).is_prefix_of(plain)) by {
        let entry = entries[i];
        let n = entry.len() as int;
        let spaced = entry + " "@;
        if text::has_prefix(plain, entry) && text::has_prefix(plain.skip(n), " "@) {
            assert(plain.subrange(0, n) == entry);
            assert(plain.skip(n).subrange(0, 1) == " "@);
            assert(plain.skip(n).subrange(0, 1)[0] == plain[n]);
            assert(spaced == plain.take(n + 1));
        }
        if spaced.is_prefix_of(plain) {
            assert(spaced == plain.take(n + 1));
            assert(plain.subrange(0, n) == entry) by {
                assert(spaced.take(n) == entry);
                assert(plain.take(n + 1).take(n) == plain.subrange(0, n));
            }
            assert(plain[n] == ' ') by {
                assert(spaced[n] == ' ');
                assert(plain.take(n + 1)[n] == plain[n]);
            }
            assert(plain.skip(n).subrange(0, 1) == " "@);
        }
    }
}

/// A path is matched with slashes for backslashes and without any `./` in front, and otherwise as it
/// is.
pub proof fn law_paths_are_normalized(path: Seq<char>)
    ensures
        normalized_path("./"@ + path) == normalized_path(path),
        normalized_path(text::forward_slashes(path)) == normalized_path(path),
        !path.contains('\\') && !("./"@).is_prefix_of(path) ==> normalized_path(path) == path,
        !("./"@).is_prefix_of(normalized_path(path)),
{
    reveal_strlit("./");
    let slashed = text::forward_slashes(path);
    assert(text::forward_slashes("./"@ + path) == "./"@ + slashed);
    text::law_prefixes_are_taken_off(slashed, "./"@);
    assert(text::forward_slashes(slashed) == slashed);
    if !path.contains('\\') {
        assert forall|i: int| 0 <= i < path.len() implies slashed[i] == path[i] by {
            assert(path.contains(path[i]));
        }
        assert(slashed == path);
        text::law_prefixes_are_taken_off(path, "./"@);
    }
    lemma_trim_prefix_ends(slashed, "./"@);
}

proof fn lemma_trim_prefix_ends(s: Seq<char>, prefix: Seq<char>)
    requires
        prefix.len() > 0,
    ensures
        !prefix.is_prefix_of(text::trim_prefix(s, prefix)),
    decreases s.len(),
{
    if text::has_prefix(s, prefix) {
        lemma_trim_prefix_ends(s.skip(prefix.len() as int), prefix);
    } else if prefix.is_prefix_of(s) {
        assert(prefix == s.take(prefix.len() as int));
        assert(s.subrange(0, prefix.len() as int) == prefix);
    }
}

/// Where all globs of a policy are valid and mean the same on every system, a read is denied exactly
/// where one of them matches its path, whichever it is, and allowed else.
pub proof fn law_every_pattern_denies_reads(
    deny: Seq<Seq<char>>,
    path: Seq<char>,
    decision: Result<Decision, PermissionErrorV>,
)
    requires
        reads_as(deny, path, decision),
        forall|i: int|
            0 <= i < deny.len() ==> !(#[trigger] deny[i]).contains('\\') && glob_fault(deny[i])
                is None,
        !set_fails(deny, usize::BITS),
    ensures
        decision == Ok::<Decision, PermissionErrorV>(Decision::Deny) <==> exists|i: int|
            0 <= i < deny.len() && glob_matches(#[trigger] deny[i], normalized_path(path)),
        decision == Ok::<Decision, PermissionErrorV>(Decision::Allow) <==> forall|i: int|
            0 <= i < deny.len() ==> !glob_matches(#[trigger] deny[i], normalized_path(path)),
{
    lemma_first_fault(deny, 0);
    let denied = choose|denied: Result<bool, PermissionErrorV>|
        matched_as(deny, path, denied) && decision == #[trigger] read_chosen(denied);
    assert(all_portable(deny));
}

/// Where all globs of a policy are valid and mean the same on every system, a write is denied exactly
/// where one that denies matches its path, asked about where none does and one that asks matches it,
/// and allowed else.
pub proof fn law_every_pattern_decides_writes(
    deny: Seq<Seq<char>>,
    ask: Seq<Seq<char>>,
    path: Seq<char>,
    decision: Result<Decision, PermissionErrorV>,
)
    requires
        writes_as(deny, ask, path, decision),
        forall|i: int|
            0 <= i < deny.len() ==> !(#[trigger] deny[i]).contains('\\') && glob_fault(deny[i])
                is None,
        !set_fails(deny, usize::BITS),
        forall|i: int|
            0 <= i < ask.len() ==> !(#[trigger] ask[i]).contains('\\') && glob_fault(ask[i])
                is None,
        !set_fails(ask, usize::BITS),
    ensures
        ({
            let denied = exists|i: int|
                0 <= i < deny.len() && glob_matches(#[trigger] deny[i], normalized_path(path));
            let asked = exists|i: int|
                0 <= i < ask.len() && glob_matches(#[trigger] ask[i], normalized_path(path));
            decision == Ok::<Decision, PermissionErrorV>(
                if denied {
                    Decision::Deny
                } else if asked {
                    Decision::Ask
                } else {
                    Decision::Allow
                },
            )
        }),
{
    lemma_first_fault(deny, 0);
    lemma_first_fault(ask, 0);
    assert(all_portable(deny));
    assert(all_portable(ask));
}

proof fn lemma_first_fault(patterns: Seq<Seq<char>>, from: nat)
    ensures
        match first_fault(patterns, from) {
            None => forall|i: int|
                from <= i < patterns.len() ==> glob_fault(#[trigger] patterns[i]) is None,
            Some(fault) => exists|i: int|
                {
                    &&& from <= i < patterns.len()
                    &&& glob_fault(#[trigger] patterns[i]) is Some
                    &&& fault == (PermissionErrorV::InvalidGlob {
                        pattern: patterns[i],
                        source: glob_fault(patterns[i])->0,
                    })
                    &&& forall|j: int|
                        from <= j < i ==> glob_fault(#[trigger] patterns[j]) is None
                },
        },
    decreases patterns.len() - from,
{
    if from < patterns.len() && glob_fault(patterns[from as int]) is None {
        lemma_first_fault(patterns, from + 1);
        if first_fault(patterns, from) is Some {
            let fault = first_fault(patterns, from + 1)->0;
            let i = choose|i: int|
                {
                    &&& from + 1 <= i < patterns.len()
                    &&& glob_fault(#[trigger] patterns[i]) is Some
                    &&& fault == (PermissionErrorV::InvalidGlob {
                        pattern: patterns[i],
                        source: glob_fault(patterns[i])->0,
                    })
                    &&& forall|j: int|
                        from + 1 <= j < i ==> glob_fault(#[trigger] patterns[j]) is None
                };
            assert(glob_fault(patterns[i]) is Some);
        }
    } else if from < patterns.len() {
        assert(glob_fault(patterns[from as int]) is Some);
    }
}

/// The first glob of a policy that is none is named in the error, with what is wrong with it.
pub proof fn law_the_first_invalid_glob_is_named(
    deny: Seq<Seq<char>>,
    path: Seq<char>,
    i: int,
    read: Result<Decision, PermissionErrorV>,
)
    requires
        reads_as(deny, path, read),
        all_portable(deny),
        0 <= i < deny.len(),
        glob_fault(deny[i]) is Some,
        forall|j: int| 0 <= j < i ==> glob_fault(#[trigger] deny[j]) is None,
    ensures
        read == Err::<Decision, PermissionErrorV>(
            PermissionErrorV::InvalidGlob { pattern: deny[i], source: glob_fault(deny[i])->0 },
        ),
{
    lemma_first_fault(deny, 0);
    if first_fault(deny, 0) is Some {
        let fault = first_fault(deny, 0)->0;
        let k = choose|k: int|
            {
                &&& 0 <= k < deny.len()
                &&& glob_fault(#[trigger] deny[k]) is Some
                &&& fault == (PermissionErrorV::InvalidGlob {
                    pattern: deny[k],
                    source: glob_fault(deny[k])->0,
                })
                &&& forall|j: int| 0 <= j < k ==> glob_fault(#[trigger] deny[j]) is None
            };
        assert(k == i) by {
            if k < i {
                assert(glob_fault(deny[k]) is None);
            }
            if i < k {
                assert(glob_fault(deny[i]) is None);
            }
        }
    } else {
        assert(glob_fault(deny[i]) is None);
    }
}

/// A portable glob that matches denies a read also where other globs mean different things on
/// different systems, and where no glob can match, nothing is denied.
pub proof fn law_sure_matches_deny(
    deny: Seq<Seq<char>>,
    path: Seq<char>,
    i: int,
    decision: Result<Decision, PermissionErrorV>,
)
    requires
        reads_as(deny, path, decision),
        decision is Ok,
    ensures
        0 <= i < deny.len() && !deny[i].contains('\\') && glob_matches(
            deny[i],
            normalized_path(path),
        ) ==> decision == Ok::<Decision, PermissionErrorV>(Decision::Deny),
        deny.len() == 0 ==> decision == Ok::<Decision, PermissionErrorV>(Decision::Allow),
{
    if 0 <= i < deny.len() && !deny[i].contains('\\') && glob_matches(
        deny[i],
        normalized_path(path),
    ) {
        assert(surely_matched(deny, normalized_path(path)));
    }
}

/// What is inside the root is accepted: a path that exists there, as it really is, and one that does
/// not exist where the nearest thing above it does or nothing is there at all; as long as nothing is
/// found, the way leads one level up.
pub proof fn law_inside_paths_are_accepted(resolver: ResolverV, probe: ProbeV)
    requires
        resolver.trail is None,
        resolver.ancestor < usize::MAX,
    ensures
        ({
            let (next, step) = resolve_step(resolver, probe);
            &&& probe matches ProbeV::Found { canonical } ==> (resolver.root.is_prefix_of(canonical)
                ==> step == (ResolveStepV::Done {
                result: Ok(
                    if resolver.ancestor == 0 {
                        ResolvedV::Existing(canonical)
                    } else {
                        ResolvedV::New
                    },
                ),
            }))
            &&& probe is Absent ==> {
                &&& step matches ResolveStepV::Probe { ancestor } && ancestor == resolver.ancestor
                    + 1
                &&& next.ancestor == resolver.ancestor + 1
                &&& next.root == resolver.root && next.requested == resolver.requested
            }
            &&& probe is Beyond ==> step == (ResolveStepV::Done { result: Ok(ResolvedV::New) })
            &&& probe matches ProbeV::Failed { path, source } ==> step == (ResolveStepV::Done {
                result: Err(PermissionErrorV::Resolve { path, source }),
            })
            &&& probe matches ProbeV::Link { target } ==> (resolver.links < 40 ==> step == (
            ResolveStepV::Follow { ancestor: 0 }) && next.trail == Some(
                TrailV { target, up: 0 },
            ))
        }),
{
}

/// A link that leads to nothing is followed up to the nearest thing that exists; where that, with
/// what is missing behind it, is inside the root and steps up nowhere, the way goes on above the
/// link.
pub proof fn law_links_inside_lead_on(resolver: ResolverV, trail: TrailV, probe: ProbeV)
    requires
        resolver.trail == Some(trail),
        resolver.ancestor < usize::MAX,
        trail.up <= trail.target.len() <= usize::MAX,
    ensures
        ({
            let (next, step) = resolve_step(resolver, probe);
            let missing = trail.target.subrange(
                trail.target.len() - trail.up,
                trail.target.len() as int,
            );
            &&& probe is Absent && trail.up < trail.target.len() ==> (
            step matches ResolveStepV::Follow { ancestor } && ancestor == trail.up + 1)
                && next.trail == Some(
                TrailV { target: trail.target, up: (trail.up + 1) as usize },
            )
            &&& probe matches ProbeV::Found { canonical } ==> {
                let place = canonical + missing;
                if resolver.root.is_prefix_of(place) && !place.contains(PartV::Parent) {
                    (step matches ResolveStepV::Probe { ancestor } && ancestor == resolver.ancestor
                        + 1) && next.trail is None
                } else {
                    step == (ResolveStepV::Done {
                        result: Err(PermissionErrorV::PathEscape(resolver.requested)),
                    })
                }
            }
        }),
{
    assert(trail.target.subrange(trail.target.len() - trail.up, trail.target.len() as int)
        == trail.target.skip(trail.target.len() - trail.up));
}

/// A requested path is refused by its own words exactly where it is absolute or steps up somewhere.
pub proof fn law_stepping_up_is_refused(absolute: bool, parts: Seq<PartV>)
    ensures
        steps_out(absolute, parts) <==> absolute || exists|i: int|
            0 <= i < parts.len() && #[trigger] parts[i] == PartV::Parent,
{
}

/// A command is an entry alone, or the entry, a blank and anything behind it; an entry that goes on
/// in the same word is another command.
pub proof fn law_entries_are_whole_words(entry: Seq<char>, rest: Seq<char>, c: char)
    ensures
        matches_entry(entry, entry),
        matches_entry(entry + " "@ + rest, entry),
        c != ' ' ==> !matches_entry(entry + (seq![c] + rest), entry),
{
    reveal_strlit(" ");
    let command = entry + " "@ + rest;
    assert(command.subrange(0, entry.len() as int) == entry);
    assert(command.skip(entry.len() as int) == " "@ + rest);
    assert((" "@ + rest).subrange(0, 1) == " "@);
    let other = entry + (seq![c] + rest);
    assert(other.len() > entry.len());
    assert(other.skip(entry.len() as int) == seq![c] + rest);
    assert((seq![c] + rest)[0] == c);
    if text::has_prefix(seq![c] + rest, " "@) {
        assert((seq![c] + rest).subrange(0, 1)[0] == " "@[0]);
    }
}

/// Where nothing else is configured, tests and looks at a repository run without being asked about,
/// with any arguments; what destroys never runs; and secrets are neither read nor written, as private
/// keys for logging in are not read and the inside of a repository is not written.
pub proof fn law_default_lists_hold(entry: Seq<char>)
    ensures
        default_allow_commands().contains(entry) <==> {
            ||| entry == "git status"@
            ||| entry == "git diff"@
            ||| entry == "git log"@
            ||| entry == "npm test"@
            ||| entry == "npm run"@
            ||| entry == "pnpm test"@
            ||| entry == "pytest"@
            ||| entry == "cargo test"@
            ||| entry == "go test"@
        },
        default_deny_commands().contains(entry) <==> {
            ||| entry == "rm"@
            ||| entry == "sudo"@
            ||| entry == "shutdown"@
            ||| entry == "reboot"@
            ||| entry == "mkfs"@
            ||| entry == "dd"@
            ||| entry == "git reset --hard"@
            ||| entry == "git clean"@
            ||| entry == "git push --force"@
        },
        default_deny_read().contains(entry) <==> {
            ||| entry != ".git/**"@ && default_deny_write().contains(entry)
            ||| entry == "**/id_rsa"@
            ||| entry == "**/id_ed25519"@
        },
        default_deny_write().contains(entry) <==> {
            ||| entry == ".git/**"@
            ||| entry == ".env"@
            ||| entry == ".env.*"@
            ||| entry == "**/.env"@
            ||| entry == "**/.env.*"@
            ||| entry == "*.pem"@
            ||| entry == "**/*.pem"@
            ||| entry == "*.key"@
            ||| entry == "**/*.key"@
        },
{
    let a = default_allow_commands();
    let d = default_deny_commands();
    let r = default_deny_read();
    let w = default_deny_write();
    assert(a.len() == 9 && d.len() == 9 && r.len() == 10 && w.len() == 9);
    assert(a.contains(a[0]) && a.contains(a[1]) && a.contains(a[2]) && a.contains(a[3])
        && a.contains(a[4]) && a.contains(a[5]) && a.contains(a[6]) && a.contains(a[7])
        && a.contains(a[8]));
    assert(d.contains(d[0]) && d.contains(d[1]) && d.contains(d[2]) && d.contains(d[3])
        && d.contains(d[4]) && d.contains(d[5]) && d.contains(d[6]) && d.contains(d[7])
        && d.contains(d[8]));
    assert(r.contains(r[0]) && r.contains(r[1]) && r.contains(r[2]) && r.contains(r[3])
        && r.contains(r[4]) && r.contains(r[5]) && r.contains(r[6]) && r.contains(r[7])
        && r.contains(r[8]) && r.contains(r[9]));
    assert(w.contains(w[0]) && w.contains(w[1]) && w.contains(w[2]) && w.contains(w[3])
        && w.contains(w[4]) && w.contains(w[5]) && w.contains(w[6]) && w.contains(w[7])
        && w.contains(w[8]));
    reveal_strlit(".git/**");
    reveal_strlit(".env");
    reveal_strlit(".env.*");
    reveal_strlit("**/.env");
    reveal_strlit("**/.env.*");
    reveal_strlit("*.pem");
    reveal_strlit("**/*.pem");
    reveal_strlit("*.key");
    reveal_strlit("**/*.key");
    assert(".git/**"@[1] == 'g' && ".git/**"@.len() == 7);
    assert(".env"@.len() == 4 && ".env.*"@.len() == 6 && "**/.env.*"@.len() == 9);
    assert("**/.env"@[1] == '*' && "*.pem"@.len() == 5 && "**/*.pem"@.len() == 8);
    assert("*.key"@.len() == 5 && "**/*.key"@.len() == 8);
}

} // verus!
