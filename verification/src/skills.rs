//! Skill packages: instructions that a project offers, found in its skill directories.
use vstd::prelude::*;

use crate::context;
use crate::paths;
use crate::paths::{inside, PartV, PathPart};
use crate::protocol;
use crate::text;
use crate::text::{
    ascii_alnum, cat2, cat3, cat4, decimal, from_chars, join, lines_of, same_text,
    split_once_of, strip_prefix_of, text_before, text_bytes, to_chars, trim_both_of, unix_lines_of,
    CharSet,
};

verus! {

/// Why skills could not be found.
#[derive(Debug, Clone, PartialEq, Eq)]
pub enum SkillError {
    Io { path: String, source: String },
    Escape(String),
    Invalid { path: String, message: String },
    Duplicate(String),
    TooLarge { limit: usize },
}

/// What a skill error says.
#[verifier::ext_equal]
pub enum SkillErrorV {
    Io { path: Seq<char>, source: Seq<char> },
    Escape(Seq<char>),
    Invalid { path: Seq<char>, message: Seq<char> },
    Duplicate(Seq<char>),
    TooLarge { limit: usize },
}

impl View for SkillError {
    type V = SkillErrorV;

    open spec fn view(&self) -> SkillErrorV {
        match *self {
            SkillError::Io { path, source } => SkillErrorV::Io { path: path@, source: source@ },
            SkillError::Escape(path) => SkillErrorV::Escape(path@),
            SkillError::Invalid { path, message } => SkillErrorV::Invalid {
                path: path@,
                message: message@,
            },
            SkillError::Duplicate(name) => SkillErrorV::Duplicate(name@),
            SkillError::TooLarge { limit } => SkillErrorV::TooLarge { limit },
        }
    }
}

/// The message that a skill error shows.
pub open spec fn skill_error_text(error: SkillErrorV) -> Seq<char> {
    match error {
        SkillErrorV::Io { path, source } => "failed to inspect skill path "@ + path + ": "@ + source,
        SkillErrorV::Escape(path) => "skill file escapes its package directory: "@ + path,
        SkillErrorV::Invalid { path, message } => "invalid skill "@ + path + ": "@ + message,
        SkillErrorV::Duplicate(name) => "duplicate skill name `"@ + name + "`"@,
        SkillErrorV::TooLarge { limit } => "skill instructions exceed the configured "@
            + text::decimal_text(limit as nat) + " character limit"@,
    }
}

impl SkillError {
    /// The message that this error shows.
    pub fn describe(&self) -> (message: String)
        ensures
            message@ == skill_error_text(self@),
    {
        match self {
            SkillError::Io { path, source } => cat4(
                "failed to inspect skill path ",
                path.as_str(),
                ": ",
                source.as_str(),
            ),
            SkillError::Escape(path) => cat2(
                "skill file escapes its package directory: ",
                path.as_str(),
            ),
            SkillError::Invalid { path, message } => cat4(
                "invalid skill ",
                path.as_str(),
                ": ",
                message.as_str(),
            ),
            SkillError::Duplicate(name) => cat3("duplicate skill name `", name.as_str(), "`"),
            SkillError::TooLarge { limit } => cat3(
                "skill instructions exceed the configured ",
                decimal(*limit as u128).as_str(),
                " character limit",
            ),
        }
    }
}

/// A skill.
#[derive(Debug, Clone, PartialEq, Eq)]
pub struct Skill {
    name: String,
    description: String,
    content: String,
}

/// A skill, in the model.
#[verifier::ext_equal]
pub struct SkillV {
    pub name: Seq<char>,
    pub description: Seq<char>,
    pub content: Seq<char>,
}

impl View for Skill {
    type V = SkillV;

    closed spec fn view(&self) -> SkillV {
        SkillV {
            name: self.name@,
            description: self.description@,
            content: self.content@,
        }
    }
}

/// Whether a character may stand in the name of a skill.
pub open spec fn name_char(c: char) -> bool {
    c == '_' || c == '-' || text::is_ascii_alnum(c)
}

/// Whether a text is a name for a skill.
pub open spec fn is_skill_name(name: Seq<char>) -> bool {
    1 <= text::byte_len(name) <= 64 && forall|i: int|
        0 <= i < name.len() ==> name_char(#[trigger] name[i])
}

/// Whether a text is a name for a skill.
pub fn valid_name(name: &str) -> (valid: bool)
    ensures
        valid == is_skill_name(name@),
{
    let bytes = text_bytes(name);
    if bytes < 1 || bytes > 64 {
        return false;
    }
    let chars = to_chars(name);
    for i in 0..chars.len()
        invariant
            chars@ == name@,
            forall|j: int| 0 <= j < i ==> name_char(#[trigger] chars@[j]),
    {
        let c = chars[i];
        if !(c == '_' || c == '-' || ascii_alnum(c)) {
            return false;
        }
    }
    true
}

/// Whether a text describes a skill.
pub open spec fn is_description(description: Seq<char>) -> bool {
    1 <= description.len() <= 500
}

/// The lines between the dashes at the top of a skill file.
pub open spec fn front_matter(content: Seq<char>) -> Option<Seq<char>> {
    match text::strip_prefix(text::unix_lines(content), "---\n"@) {
        Some(rest) => match text::split_at_first(rest, "\n---\n"@) {
            Some((metadata, _)) => Some(metadata),
            None => None,
        },
        None => None,
    }
}

/// The key and the value of a line of front matter, without the space round them and the quotes
/// round the value.
pub open spec fn line_entry(line: Seq<char>) -> Option<(Seq<char>, Seq<char>)> {
    match text::split_at_first(line, ":"@) {
        Some((key, value)) => Some(
            (
                text::trim_both(CharSet::White, key),
                text::trim_both(CharSet::Quote, text::trim_both(CharSet::White, value)),
            ),
        ),
        None => None,
    }
}

/// The last value that lines give a key.
pub open spec fn last_value(lines: Seq<Seq<char>>, key: Seq<char>) -> Option<Seq<char>>
    decreases lines.len(),
{
    if lines.len() == 0 {
        None
    } else {
        match line_entry(lines.last()) {
            Some((k, value)) => if k == key {
                Some(value)
            } else {
                last_value(lines.drop_last(), key)
            },
            None => last_value(lines.drop_last(), key),
        }
    }
}

/// The name and the description of a skill file, or what is wrong with it.
pub open spec fn skill_metadata(content: Seq<char>) -> Result<(Seq<char>, Seq<char>), Seq<char>> {
    match front_matter(content) {
        None => Err("expected YAML frontmatter with name and description"@),
        Some(metadata) => {
            let lines = text::lines(metadata);
            let name = last_value(lines, "name"@);
            let description = last_value(lines, "description"@);
            if !(name is Some && is_skill_name(name->0)) {
                Err("name must use 1-64 letters, digits, underscores, or hyphens"@)
            } else if !(description is Some && is_description(description->0)) {
                Err("description must contain 1-500 characters"@)
            } else {
                Ok((name->0, description->0))
            }
        },
    }
}

/// What reading the top of a skill file gives.
pub open spec fn metadata_result(result: Result<(String, String), SkillError>) -> Result<
    (Seq<char>, Seq<char>),
    SkillErrorV,
> {
    match result {
        Ok((name, description)) => Ok((name@, description@)),
        Err(error) => Err(error@),
    }
}

/// Reads the name and the description of a skill file.
pub fn parse_metadata(path: &str, content: &str) -> (metadata: Result<
    (String, String),
    SkillError,
>)
    ensures
        metadata_result(metadata) == (match skill_metadata(content@) {
            Ok(found) => Ok(found),
            Err(message) => Err(SkillErrorV::Invalid { path: path@, message }),
        }),
{
    let normalized = unix_lines_of(to_chars(content).as_slice());
    let metadata = match strip_prefix_of(normalized.as_slice(), "---\n") {
        Some(rest) => match split_once_of(rest, "\n---\n") {
            Some((metadata, _)) => Some(metadata),
            None => None,
        },
        None => None,
    };
    let metadata = match metadata {
        Some(metadata) => metadata,
        None => {
            return Err(
                SkillError::Invalid {
                    path: path.to_owned(),
                    message: "expected YAML frontmatter with name and description".to_owned(),
                },
            );
        },
    };
    let list = lines_of(metadata);
    let ghost all = text::lines(metadata@);
    let mut name: Option<String> = None;
    let mut description: Option<String> = None;
    proof {
        reveal_strlit("name");
        reveal_strlit("description");
        assert("name"@.len() == 4 && "description"@.len() == 11);
    }
    for i in 0..list.len()
        invariant
            text::slice_views(list@) == all,
            protocol::optional_text(name) == last_value(all.take(i as int), "name"@),
            protocol::optional_text(description) == last_value(
                all.take(i as int),
                "description"@,
            ),
            "name"@ != "description"@,
    {
        proof {
            assert(all.take(i + 1).drop_last() == all.take(i as int));
            assert(all.take(i + 1).last() == list@[i as int]@);
        }
        if let Some((key, value)) = split_once_of(list[i], ":") {
            let value = trim_both_of(CharSet::Quote, trim_both_of(CharSet::White, value));
            let key = from_chars(trim_both_of(CharSet::White, key));
            if same_text(key.as_str(), "name") {
                name = Some(from_chars(value));
            } else if same_text(key.as_str(), "description") {
                description = Some(from_chars(value));
            }
        }
    }
    assert(all.take(list.len() as int) == all);
    let name = match name {
        Some(name) => if valid_name(name.as_str()) {
            Some(name)
        } else {
            None
        },
        None => None,
    };
    let name = match name {
        Some(name) => name,
        None => {
            return Err(
                SkillError::Invalid {
                    path: path.to_owned(),
                    message: "name must use 1-64 letters, digits, underscores, or hyphens".to_owned(),
                },
            );
        },
    };
    if let Some(description) = description {
        let count = to_chars(description.as_str()).len();
        if 1 <= count && count <= 500 {
            return Ok((name, description));
        }
    }
    Err(
        SkillError::Invalid {
            path: path.to_owned(),
            message: "description must contain 1-500 characters".to_owned(),
        },
    )
}

/// What skills say.
pub open spec fn skill_views(skills: Seq<Skill>) -> Seq<SkillV> {
    skills.map_values(|skill: Skill| skill@)
}

/// Whether skills stand in the order of their names, each name once.
pub open spec fn names_grow(skills: Seq<SkillV>) -> bool {
    forall|i: int, j: int|
        0 <= i < j < skills.len() ==> text::text_lt(
            (#[trigger] skills[i]).name,
            (#[trigger] skills[j]).name,
        )
}

/// The skill with a name.
pub open spec fn skill_named(skills: Seq<SkillV>, name: Seq<char>) -> Option<SkillV>
    decreases skills.len(),
{
    if skills.len() == 0 {
        None
    } else if skills.last().name == name {
        Some(skills.last())
    } else {
        skill_named(skills.drop_last(), name)
    }
}

/// The skills with one more, in the order of their names.
pub open spec fn with_skill(skills: Seq<SkillV>, skill: SkillV) -> Seq<SkillV>
    decreases skills.len(),
{
    if skills.len() == 0 || !text::text_lt(skill.name, skills.last().name) {
        skills.push(skill)
    } else {
        with_skill(skills.drop_last(), skill).push(skills.last())
    }
}

/// The line that lists a skill.
pub open spec fn skill_line(skill: SkillV) -> Seq<char> {
    skill.name + ": "@ + skill.description
}

/// The skills that a project offers, in the order of their names.
#[derive(Debug, Clone)]
pub struct SkillRegistry {
    skills: Vec<Skill>,
}

impl View for SkillRegistry {
    type V = Seq<SkillV>;

    closed spec fn view(&self) -> Seq<SkillV> {
        skill_views(self.skills@)
    }
}

impl Default for SkillRegistry {
    fn default() -> (registry: Self)
        ensures
            registry@ == Seq::<SkillV>::empty(),
    {
        let registry = SkillRegistry { skills: Vec::new() };
        assert(registry@ == Seq::<SkillV>::empty());
        registry
    }
}

impl SkillRegistry {
    /// Whether there is no skill.
    pub fn is_empty(&self) -> (empty: bool)
        ensures
            empty == (self@.len() == 0),
    {
        self.skills.len() == 0
    }

    /// The skills, one line for each.
    pub fn list(&self) -> (listed: String)
        ensures
            listed@ == text::join_text(self@.map_values(|s: SkillV| skill_line(s)), "\n"@),
    {
        let ghost wanted = self@.map_values(|s: SkillV| skill_line(s));
        let mut lines: Vec<String> = Vec::new();
        for i in 0..self.skills.len()
            invariant
                wanted == self@.map_values(|s: SkillV| skill_line(s)),
                text::views(lines@) == wanted.take(i as int),
        {
            let skill = &self.skills[i];
            assert(self@[i as int] == skill@);
            let ghost before = lines@;
            let line = cat3(skill.name.as_str(), ": ", skill.description.as_str());
            lines.push(line);
            assert(text::views(lines@) == text::views(before).push(line@));
            assert(wanted.take(i + 1) == wanted.take(i as int).push(wanted[i as int]));
        }
        assert(wanted.take(self.skills.len() as int) == wanted);
        join(&lines, "\n")
    }

    /// The instructions of a skill.
    pub fn read(&self, name: &str) -> (content: Option<&str>)
        ensures
            match content {
                Some(c) => skill_named(self@, name@) matches Some(skill) && skill.content == c@,
                None => skill_named(self@, name@) is None,
            },
    {
        let ghost all = self@;
        let mut i = self.skills.len();
        assert(all.take(i as int) == all);
        while i > 0
            invariant
                i <= self.skills.len(),
                all == self@,
                skill_named(all, name@) == skill_named(all.take(i as int), name@),
            decreases i,
        {
            assert(all.take(i as int).drop_last() == all.take(i - 1));
            assert(all.take(i as int).last() == self.skills@[i - 1]@);
            i -= 1;
            if same_text(self.skills[i].name.as_str(), name) {
                return Some(self.skills[i].content.as_str());
            }
        }
        None
    }

    /// Adds a skill.
    fn insert(&mut self, skill: Skill)
        ensures
            final(self)@ == with_skill(old(self)@, skill@),
    {
        let ghost all = self@;
        let mut at = self.skills.len();
        assert(all.take(at as int) == all);
        while at > 0 && text_before(skill.name.as_str(), self.skills[at - 1].name.as_str())
            invariant
                at <= self.skills.len(),
                self@ == all,
                with_skill(all, skill@) == with_skill(all.take(at as int), skill@) + all.skip(
                    at as int,
                ),
            decreases at,
        {
            proof {
                let shorter = all.take(at - 1);
                assert(all.take(at as int).drop_last() == shorter);
                assert(all.take(at as int).last() == all[at - 1]);
                assert(with_skill(shorter, skill@).push(all[at - 1]) + all.skip(at as int)
                    == with_skill(shorter, skill@) + all.skip(at - 1));
            }
            at -= 1;
        }
        proof {
            if at > 0 {
                assert(all.take(at as int).last() == all[at - 1]);
            }
        }
        self.skills.insert(at, skill);
        assert(self@ == all.take(at as int).push(skill@) + all.skip(at as int));
    }
}

proof fn lemma_with_skill(skills: Seq<SkillV>, skill: SkillV)
    requires
        names_grow(skills),
        skill_named(skills, skill.name) is None,
    ensures
        names_grow(with_skill(skills, skill)),
        forall|i: int|
            0 <= i < with_skill(skills, skill).len() ==> {
                let found = #[trigger] with_skill(skills, skill)[i];
                found == skill || skills.contains(found)
            },
    decreases skills.len(),
{
    let whole = with_skill(skills, skill);
    if skills.len() > 0 {
        let front = skills.drop_last();
        let last = skills.last();
        text::lemma_text_lt_total(skill.name, last.name);
        if text::text_lt(skill.name, last.name) {
            assert forall|i: int, j: int| 0 <= i < j < front.len() implies text::text_lt(
                (#[trigger] front[i]).name,
                (#[trigger] front[j]).name,
            ) by {
                assert(front[i] == skills[i] && front[j] == skills[j]);
            }
            lemma_with_skill(front, skill);
            let inner = with_skill(front, skill);
            assert forall|i: int| 0 <= i < inner.len() implies text::text_lt(
                (#[trigger] inner[i]).name,
                last.name,
            ) by {
                if inner[i] != skill {
                    let j = front.index_of(inner[i]);
                    assert(skills[j] == inner[i]);
                    assert(text::text_lt(skills[j].name, skills[skills.len() - 1].name));
                }
            }
            assert forall|i: int, j: int| 0 <= i < j < whole.len() implies text::text_lt(
                (#[trigger] whole[i]).name,
                (#[trigger] whole[j]).name,
            ) by {
                assert(whole[i] == inner[i]);
                if j < inner.len() {
                    assert(whole[j] == inner[j]);
                }
            }
            assert forall|i: int| 0 <= i < whole.len() implies {
                let found = #[trigger] whole[i];
                found == skill || skills.contains(found)
            } by {
                if i < inner.len() {
                    assert(whole[i] == inner[i]);
                    if inner[i] != skill {
                        let j = front.index_of(inner[i]);
                        assert(skills[j] == inner[i]);
                    }
                } else {
                    assert(skills[skills.len() - 1] == whole[i]);
                }
            }
        } else {
            assert forall|i: int, j: int| 0 <= i < j < whole.len() implies text::text_lt(
                (#[trigger] whole[i]).name,
                (#[trigger] whole[j]).name,
            ) by {
                assert(whole[i] == skills[i]);
                if j == skills.len() {
                    if i < skills.len() - 1 {
                        assert(text::text_lt(skills[i].name, skills[skills.len() - 1].name));
                        text::lemma_text_lt_transitive(skills[i].name, last.name, skill.name);
                    }
                } else {
                    assert(whole[j] == skills[j]);
                }
            }
            assert forall|i: int| 0 <= i < whole.len() implies {
                let found = #[trigger] whole[i];
                found == skill || skills.contains(found)
            } by {
                if i < skills.len() {
                    assert(skills[i] == whole[i]);
                }
            }
        }
    }
}

/// What the file system says of a path.
pub enum Place {
    /// Nothing of the kind is there.
    Missing,
    /// It is there and cannot be resolved.
    Failed { path: String, source: String },
    /// It is there: as it was asked for, and where it really is.
    Found { path: String, shown: String, canonical: Vec<PathPart> },
}

/// What the file system says of a path, in the model.
#[verifier::ext_equal]
pub enum PlaceV {
    Missing,
    Failed { path: Seq<char>, source: Seq<char> },
    Found { path: Seq<char>, shown: Seq<char>, canonical: Seq<PartV> },
}

impl View for Place {
    type V = PlaceV;

    open spec fn view(&self) -> PlaceV {
        match *self {
            Place::Missing => PlaceV::Missing,
            Place::Failed { path, source } => PlaceV::Failed { path: path@, source: source@ },
            Place::Found { path, shown, canonical } => PlaceV::Found {
                path: path@,
                shown: shown@,
                canonical: paths::part_views(canonical@),
            },
        }
    }
}

/// The next entry of a directory.
pub enum EntryReport {
    /// There is no further one.
    End,
    /// It cannot be listed.
    Failed { source: String },
    /// It cannot be told what it is.
    Unreadable { path: String, source: String },
    /// It is no directory.
    Other,
    /// It is a directory, and this is where it really is.
    Directory { path: String, canonical: Result<Vec<PathPart>, String> },
}

/// The next entry of a directory, in the model.
#[verifier::ext_equal]
pub enum EntryV {
    End,
    Failed { source: Seq<char> },
    Unreadable { path: Seq<char>, source: Seq<char> },
    Other,
    Directory { path: Seq<char>, canonical: Result<Seq<PartV>, Seq<char>> },
}

impl View for EntryReport {
    type V = EntryV;

    open spec fn view(&self) -> EntryV {
        match *self {
            EntryReport::End => EntryV::End,
            EntryReport::Failed { source } => EntryV::Failed { source: source@ },
            EntryReport::Unreadable { path, source } => EntryV::Unreadable {
                path: path@,
                source: source@,
            },
            EntryReport::Other => EntryV::Other,
            EntryReport::Directory { path, canonical } => EntryV::Directory {
                path: path@,
                canonical: match canonical {
                    Ok(parts) => Ok(paths::part_views(parts@)),
                    Err(source) => Err(source@),
                },
            },
        }
    }
}

/// What the file system answers to a scan.
#[allow(inconsistent_fields)]
pub enum SkillReply {
    Place { place: Place },
    Listed { result: Result<(), String> },
    Entry { entry: EntryReport },
    Content { result: Result<String, String> },
}

/// What the file system answers to a scan, in the model.
#[verifier::ext_equal]
#[allow(inconsistent_fields)]
pub enum SkillReplyV {
    Place { place: PlaceV },
    Listed { result: Result<(), Seq<char>> },
    Entry { entry: EntryV },
    Content { result: Result<Seq<char>, Seq<char>> },
}

impl View for SkillReply {
    type V = SkillReplyV;

    open spec fn view(&self) -> SkillReplyV {
        match *self {
            SkillReply::Place { place } => SkillReplyV::Place { place: place@ },
            SkillReply::Listed { result } => SkillReplyV::Listed {
                result: match result {
                    Ok(()) => Ok(()),
                    Err(source) => Err(source@),
                },
            },
            SkillReply::Entry { entry } => SkillReplyV::Entry { entry: entry@ },
            SkillReply::Content { result } => SkillReplyV::Content {
                result: match result {
                    Ok(content) => Ok(content@),
                    Err(source) => Err(source@),
                },
            },
        }
    }
}

/// What a scan asks the file system for.
#[derive(Debug)]
pub enum SkillStep {
    /// Resolve a directory below the root.
    Directory { relative: String },
    /// List the directory that was resolved last.
    List,
    /// Give its next entry.
    NextEntry,
    /// Resolve the skill file of the entry that was given last.
    File,
    /// Read the file that was resolved last.
    Content,
    /// Nothing: the scan is over.
    Done { result: Result<SkillRegistry, SkillError> },
}

/// What a scan asks for, in the model.
#[verifier::ext_equal]
pub enum SkillStepV {
    Directory { relative: Seq<char> },
    List,
    NextEntry,
    File,
    Content,
    Done { result: Result<Seq<SkillV>, SkillErrorV> },
}

impl View for SkillStep {
    type V = SkillStepV;

    open spec fn view(&self) -> SkillStepV {
        match *self {
            SkillStep::Directory { relative } => SkillStepV::Directory { relative: relative@ },
            SkillStep::List => SkillStepV::List,
            SkillStep::NextEntry => SkillStepV::NextEntry,
            SkillStep::File => SkillStepV::File,
            SkillStep::Content => SkillStepV::Content,
            SkillStep::Done { result } => SkillStepV::Done {
                result: match result {
                    Ok(registry) => Ok(registry@),
                    Err(error) => Err(error@),
                },
            },
        }
    }
}

/// A skill directory that is being listed: which one it is, where it really is, and how it shows.
pub struct Listing {
    index: usize,
    directory: Vec<PathPart>,
    shown: String,
}

/// A skill directory that is being listed, in the model.
#[verifier::ext_equal]
pub struct ListingV {
    pub index: usize,
    pub directory: Seq<PartV>,
    pub shown: Seq<char>,
}

impl View for Listing {
    type V = ListingV;

    closed spec fn view(&self) -> ListingV {
        ListingV {
            index: self.index,
            directory: paths::part_views(self.directory@),
            shown: self.shown@,
        }
    }
}

/// What a scan waits for.
pub enum SkillPhase {
    Directory { index: usize },
    Listing { listing: Listing },
    Entry { listing: Listing },
    File { listing: Listing, package: Vec<PathPart> },
    Content { listing: Listing, file: Vec<PathPart>, shown: String },
    Over,
}

/// What a scan waits for, in the model.
#[verifier::ext_equal]
pub enum SkillPhaseV {
    Directory { index: usize },
    Listing { listing: ListingV },
    Entry { listing: ListingV },
    File { listing: ListingV, package: Seq<PartV> },
    Content { listing: ListingV, file: Seq<PartV>, shown: Seq<char> },
    Over,
}

impl View for SkillPhase {
    type V = SkillPhaseV;

    open spec fn view(&self) -> SkillPhaseV {
        match *self {
            SkillPhase::Directory { index } => SkillPhaseV::Directory { index },
            SkillPhase::Listing { listing } => SkillPhaseV::Listing { listing: listing@ },
            SkillPhase::Entry { listing } => SkillPhaseV::Entry { listing: listing@ },
            SkillPhase::File { listing, package } => SkillPhaseV::File {
                listing: listing@,
                package: paths::part_views(package@),
            },
            SkillPhase::Content { listing, file, shown } => SkillPhaseV::Content {
                listing: listing@,
                file: paths::part_views(file@),
                shown: shown@,
            },
            SkillPhase::Over => SkillPhaseV::Over,
        }
    }
}

/// A scan of the skill directories of a project.
pub struct SkillScan {
    max_chars: usize,
    total_chars: usize,
    registry: SkillRegistry,
    root: Vec<PathPart>,
    phase: SkillPhase,
}

/// A scan, in the model.
#[verifier::ext_equal]
pub struct ScanV {
    pub max_chars: usize,
    pub total_chars: usize,
    pub skills: Seq<SkillV>,
    pub root: Seq<PartV>,
    pub phase: SkillPhaseV,
}

impl View for SkillScan {
    type V = ScanV;

    closed spec fn view(&self) -> ScanV {
        ScanV {
            max_chars: self.max_chars,
            total_chars: self.total_chars,
            skills: self.registry@,
            root: paths::part_views(self.root@),
            phase: self.phase@,
        }
    }
}

/// Whether an answer is of the kind that a scan waits for.
pub open spec fn scan_fits(phase: SkillPhaseV, reply: SkillReplyV) -> bool {
    match phase {
        SkillPhaseV::Directory { .. } => reply is Place,
        SkillPhaseV::Listing { .. } => reply is Listed,
        SkillPhaseV::Entry { .. } => reply is Entry,
        SkillPhaseV::File { .. } => reply is Place,
        SkillPhaseV::Content { .. } => reply is Content,
        SkillPhaseV::Over => false,
    }
}

/// A failed scan.
pub open spec fn scan_failed(scan: ScanV, error: SkillErrorV) -> (ScanV, SkillStepV) {
    (
        ScanV { skills: seq![], phase: SkillPhaseV::Over, ..scan },
        SkillStepV::Done { result: Err(error) },
    )
}

/// The scan of the directory number `index`, or the end where there is none.
pub open spec fn scan_directory(scan: ScanV, index: usize) -> (ScanV, SkillStepV) {
    if index == 0 {
        (
            ScanV { phase: SkillPhaseV::Directory { index }, ..scan },
            SkillStepV::Directory { relative: ".agents/skills"@ },
        )
    } else if index == 1 {
        (
            ScanV { phase: SkillPhaseV::Directory { index }, ..scan },
            SkillStepV::Directory { relative: ".codehelm/skills"@ },
        )
    } else {
        (
            ScanV { skills: seq![], phase: SkillPhaseV::Over, ..scan },
            SkillStepV::Done { result: Ok(scan.skills) },
        )
    }
}

/// What a skill file adds to a scan, or why it is refused.
pub open spec fn scan_skill(scan: ScanV, shown: Seq<char>, content: Seq<char>) -> Result<
    ScanV,
    SkillErrorV,
> {
    let total = context::capped(scan.total_chars as nat + content.len());
    if total > scan.max_chars {
        Err(SkillErrorV::TooLarge { limit: scan.max_chars })
    } else {
        match skill_metadata(content) {
            Err(message) => Err(SkillErrorV::Invalid { path: shown, message }),
            Ok((name, description)) => if skill_named(scan.skills, name) is Some {
                Err(SkillErrorV::Duplicate(name))
            } else {
                Ok(
                    ScanV {
                        total_chars: total,
                        skills: with_skill(scan.skills, SkillV { name, description, content }),
                        ..scan
                    },
                )
            },
        }
    }
}

/// What an answer of the file system makes of a scan.
pub open spec fn scan_step(scan: ScanV, reply: SkillReplyV) -> (ScanV, SkillStepV) {
    match (scan.phase, reply) {
        (SkillPhaseV::Directory { index }, SkillReplyV::Place { place }) => match place {
            PlaceV::Missing => scan_directory(scan, (index + 1) as usize),
            PlaceV::Failed { path, source } => scan_failed(scan, SkillErrorV::Io { path, source }),
            PlaceV::Found { path, shown, canonical } => if !paths::is_inside(canonical, scan.root) {
                scan_failed(scan, SkillErrorV::Escape(path))
            } else {
                let listing = ListingV { index, directory: canonical, shown };
                (ScanV { phase: SkillPhaseV::Listing { listing }, ..scan }, SkillStepV::List)
            },
        },
        (SkillPhaseV::Listing { listing }, SkillReplyV::Listed { result }) => match result {
            Err(source) => scan_failed(scan, SkillErrorV::Io { path: listing.shown, source }),
            Ok(()) => (
                ScanV { phase: SkillPhaseV::Entry { listing }, ..scan },
                SkillStepV::NextEntry,
            ),
        },
        (SkillPhaseV::Entry { listing }, SkillReplyV::Entry { entry }) => match entry {
            EntryV::End => scan_directory(scan, (listing.index + 1) as usize),
            EntryV::Failed { source } => scan_failed(
                scan,
                SkillErrorV::Io { path: listing.shown, source },
            ),
            EntryV::Unreadable { path, source } => scan_failed(
                scan,
                SkillErrorV::Io { path, source },
            ),
            EntryV::Other => (scan, SkillStepV::NextEntry),
            EntryV::Directory { path, canonical } => match canonical {
                Err(source) => scan_failed(scan, SkillErrorV::Io { path, source }),
                Ok(package) => if !paths::is_inside(package, listing.directory) {
                    scan_failed(scan, SkillErrorV::Escape(path))
                } else {
                    (
                        ScanV { phase: SkillPhaseV::File { listing, package }, ..scan },
                        SkillStepV::File,
                    )
                },
            },
        },
        (SkillPhaseV::File { listing, package }, SkillReplyV::Place { place }) => match place {
            PlaceV::Missing => (
                ScanV { phase: SkillPhaseV::Entry { listing }, ..scan },
                SkillStepV::NextEntry,
            ),
            PlaceV::Failed { path, source } => scan_failed(scan, SkillErrorV::Io { path, source }),
            PlaceV::Found { path, shown, canonical } => if !paths::is_inside(canonical, package) {
                scan_failed(scan, SkillErrorV::Escape(path))
            } else {
                (
                    ScanV {
                        phase: SkillPhaseV::Content { listing, file: canonical, shown },
                        ..scan
                    },
                    SkillStepV::Content,
                )
            },
        },
        (
            SkillPhaseV::Content { listing, file, shown },
            SkillReplyV::Content { result },
        ) => match result {
            Err(source) => scan_failed(scan, SkillErrorV::Io { path: shown, source }),
            Ok(content) => match scan_skill(scan, shown, content) {
                Err(error) => scan_failed(scan, error),
                Ok(grown) => (
                    ScanV { phase: SkillPhaseV::Entry { listing }, ..grown },
                    SkillStepV::NextEntry,
                ),
            },
        },
        _ => (scan, SkillStepV::Done { result: Ok(scan.skills) }),
    }
}

/// The characters of all skills together.
pub open spec fn skill_chars(skills: Seq<SkillV>) -> nat
    decreases skills.len(),
{
    if skills.len() == 0 {
        0
    } else {
        skill_chars(skills.drop_last()) + skills.last().content.len()
    }
}

/// A scan is in order: what it looks at is inside the root, its skills have distinct names of the
/// right form, in order, and together they are within the limit.
pub open spec fn scan_in_order(scan: ScanV) -> bool {
    &&& match scan.phase {
        SkillPhaseV::Directory { index } => index < 2,
        SkillPhaseV::Listing { listing } | SkillPhaseV::Entry { listing } => {
            &&& listing.index < 2
            &&& paths::is_inside(listing.directory, scan.root)
        },
        SkillPhaseV::File { listing, package } => {
            &&& listing.index < 2
            &&& paths::is_inside(listing.directory, scan.root)
            &&& paths::is_inside(package, listing.directory)
        },
        SkillPhaseV::Content { listing, file, shown } => {
            &&& listing.index < 2
            &&& paths::is_inside(listing.directory, scan.root)
            &&& paths::is_inside(file, listing.directory)
        },
        SkillPhaseV::Over => true,
    }
    &&& names_grow(scan.skills)
    &&& forall|i: int|
        0 <= i < scan.skills.len() ==> is_skill_name((#[trigger] scan.skills[i]).name)
    &&& scan.phase is Over || scan.total_chars == context::capped(skill_chars(scan.skills))
    &&& scan.total_chars <= scan.max_chars
}

proof fn lemma_skill_chars(skills: Seq<SkillV>, skill: SkillV)
    ensures
        skill_chars(with_skill(skills, skill)) == skill_chars(skills) + skill.content.len(),
    decreases skills.len(),
{
    let whole = with_skill(skills, skill);
    if skills.len() == 0 || !text::text_lt(skill.name, skills.last().name) {
        assert(whole.drop_last() == skills);
    } else {
        lemma_skill_chars(skills.drop_last(), skill);
        assert(whole.drop_last() == with_skill(skills.drop_last(), skill));
    }
}

/// Whatever the file system answers, a scan stays in order: no file outside the root is read, no
/// name is taken twice, and the limit is kept.
pub proof fn law_scan_stays_in_order(scan: ScanV, reply: SkillReplyV)
    requires
        scan_in_order(scan),
        scan_fits(scan.phase, reply),
    ensures
        scan_in_order(scan_step(scan, reply).0),
        scan_step(scan, reply).1 is Content ==> (scan_step(
            scan,
            reply,
        ).0.phase matches SkillPhaseV::Content { file, .. } && paths::is_inside(file, scan.root)),
{
    match (scan.phase, reply) {
        (
            SkillPhaseV::File { listing, package },
            SkillReplyV::Place { place: PlaceV::Found { canonical, .. } },
        ) => {
            if paths::is_inside(canonical, package) {
                paths::law_containment_is_transitive(canonical, package, listing.directory);
                paths::law_containment_is_transitive(canonical, listing.directory, scan.root);
            }
        },
        (
            SkillPhaseV::Content { listing, file, shown },
            SkillReplyV::Content { result: Ok(content) },
        ) => {
            if let Ok(grown) = scan_skill(scan, shown, content) {
                let (name, description) = skill_metadata(content)->Ok_0;
                let skill = SkillV { name, description, content };
                lemma_with_skill(scan.skills, skill);
                lemma_skill_chars(scan.skills, skill);
                assert forall|i: int| 0 <= i < grown.skills.len() implies is_skill_name(
                    (#[trigger] grown.skills[i]).name,
                ) by {
                    if grown.skills[i] != skill {
                        let j = scan.skills.index_of(grown.skills[i]);
                        assert(is_skill_name(scan.skills[j].name));
                    }
                }
            }
        },
        _ => {},
    }
}

impl SkillRegistry {
    /// Starts a scan for the skills of a project, whose root the file system resolved or failed to.
    pub fn discover(root_path: &str, root: Result<Vec<PathPart>, String>, max_chars: usize) -> (scan:
        Result<(SkillScan, SkillStep), SkillError>)
        ensures
            match root {
                Ok(canonical) => scan matches Ok((s, step)) && {
                    let fresh = ScanV {
                        max_chars,
                        total_chars: 0,
                        skills: seq![],
                        root: paths::part_views(canonical@),
                        phase: SkillPhaseV::Over,
                    };
                    &&& (s@, step@) == scan_directory(fresh, 0)
                    &&& scan_in_order(s@)
                },
                Err(source) => scan matches Err(error) && error@ == (SkillErrorV::Io {
                    path: root_path@,
                    source: source@,
                }),
            },
    {
        match root {
            Ok(root) => {
                let mut scan = SkillScan {
                    max_chars,
                    total_chars: 0,
                    registry: SkillRegistry::default(),
                    root,
                    phase: SkillPhase::Over,
                };
                let step = scan.begin_directory(0);
                Ok((scan, step))
            },
            Err(source) => Err(SkillError::Io { path: root_path.to_owned(), source }),
        }
    }
}

impl SkillScan {
    fn begin_directory(&mut self, index: usize) -> (step: SkillStep)
        ensures
            (final(self)@, step@) == scan_directory(old(self)@, index),
    {
        if index == 0 {
            self.phase = SkillPhase::Directory { index };
            SkillStep::Directory { relative: ".agents/skills".to_owned() }
        } else if index == 1 {
            self.phase = SkillPhase::Directory { index };
            SkillStep::Directory { relative: ".codehelm/skills".to_owned() }
        } else {
            self.phase = SkillPhase::Over;
            let mut registry = SkillRegistry::default();
            std::mem::swap(&mut self.registry, &mut registry);
            SkillStep::Done { result: Ok(registry) }
        }
    }

    fn fail(&mut self, error: SkillError) -> (step: SkillStep)
        ensures
            (final(self)@, step@) == scan_failed(old(self)@, error@),
    {
        self.phase = SkillPhase::Over;
        self.registry = SkillRegistry::default();
        SkillStep::Done { result: Err(error) }
    }

    fn add_skill(&mut self, shown: &str, content: String) -> (result: Result<(), SkillError>)
        ensures
            match scan_skill(old(self)@, shown@, content@) {
                Ok(grown) => result is Ok && final(self)@ == grown,
                Err(error) => {
                    &&& result matches Err(e) && e@ == error
                    &&& final(self)@ == old(self)@
                },
            },
    {
        let count = to_chars(content.as_str()).len();
        let total = self.total_chars.saturating_add(count);
        if total > self.max_chars {
            return Err(SkillError::TooLarge { limit: self.max_chars });
        }
        match parse_metadata(shown, content.as_str()) {
            Err(error) => Err(error),
            Ok((name, description)) => {
                if self.registry.read(name.as_str()).is_some() {
                    return Err(SkillError::Duplicate(name));
                }
                self.total_chars = total;
                self.registry.insert(Skill { name, description, content });
                Ok(())
            },
        }
    }

    /// Goes on with what the file system answered.
    pub fn resume(&mut self, reply: SkillReply) -> (step: SkillStep)
        requires
            scan_in_order(old(self)@),
            scan_fits(old(self)@.phase, reply@),
        ensures
            (final(self)@, step@) == scan_step(old(self)@, reply@),
            scan_in_order(final(self)@),
    {
        proof {
            law_scan_stays_in_order(self@, reply@);
        }
        let mut phase = SkillPhase::Over;
        std::mem::swap(&mut self.phase, &mut phase);
        match (phase, reply) {
            (SkillPhase::Directory { index }, SkillReply::Place { place }) => match place {
                Place::Missing => self.begin_directory(index + 1),
                Place::Failed { path, source } => self.fail(SkillError::Io { path, source }),
                Place::Found { path, shown, canonical } => {
                    if !inside(canonical.as_slice(), self.root.as_slice()) {
                        return self.fail(SkillError::Escape(path));
                    }
                    let listing = Listing { index, directory: canonical, shown };
                    self.phase = SkillPhase::Listing { listing };
                    SkillStep::List
                },
            },
            (SkillPhase::Listing { listing }, SkillReply::Listed { result }) => match result {
                Err(source) => self.fail(SkillError::Io { path: listing.shown, source }),
                Ok(()) => {
                    self.phase = SkillPhase::Entry { listing };
                    SkillStep::NextEntry
                },
            },
            (SkillPhase::Entry { listing }, SkillReply::Entry { entry }) => match entry {
                EntryReport::End => self.begin_directory(listing.index + 1),
                EntryReport::Failed { source } => self.fail(
                    SkillError::Io { path: listing.shown, source },
                ),
                EntryReport::Unreadable { path, source } => self.fail(
                    SkillError::Io { path, source },
                ),
                EntryReport::Other => {
                    self.phase = SkillPhase::Entry { listing };
                    SkillStep::NextEntry
                },
                EntryReport::Directory { path, canonical } => match canonical {
                    Err(source) => self.fail(SkillError::Io { path, source }),
                    Ok(package) => {
                        if !inside(package.as_slice(), listing.directory.as_slice()) {
                            return self.fail(SkillError::Escape(path));
                        }
                        self.phase = SkillPhase::File { listing, package };
                        SkillStep::File
                    },
                },
            },
            (SkillPhase::File { listing, package }, SkillReply::Place { place }) => match place {
                Place::Missing => {
                    self.phase = SkillPhase::Entry { listing };
                    SkillStep::NextEntry
                },
                Place::Failed { path, source } => self.fail(SkillError::Io { path, source }),
                Place::Found { path, shown, canonical } => {
                    if !inside(canonical.as_slice(), package.as_slice()) {
                        return self.fail(SkillError::Escape(path));
                    }
                    self.phase = SkillPhase::Content { listing, file: canonical, shown };
                    SkillStep::Content
                },
            },
            (
                SkillPhase::Content { listing, file, shown },
                SkillReply::Content { result },
            ) => match result {
                Err(source) => self.fail(SkillError::Io { path: shown, source }),
                Ok(content) => match self.add_skill(shown.as_str(), content) {
                    Err(error) => self.fail(error),
                    Ok(()) => {
                        self.phase = SkillPhase::Entry { listing };
                        SkillStep::NextEntry
                    },
                },
            },
            _ => SkillStep::Done { result: Ok(SkillRegistry::default()) },
        }
    }
}

/// The top of a skill file is what stands between its first line of dashes and the next one; a file
/// that does not start with such a line, or has no second one, has no top.
pub proof fn law_front_matter_stands_between_dashes(content: Seq<char>)
    ensures
        ({
            let plain = text::unix_lines(content);
            match front_matter(content) {
                Some(metadata) => {
                    &&& ("---\n"@ + metadata + "\n---\n"@).is_prefix_of(plain)
                    &&& forall|i: int, j: int|
                        4 <= i < 4 + metadata.len() && j == i + 5 && j <= plain.len()
                            ==> #[trigger] plain.subrange(i, j) != "\n---\n"@
                },
                None => !("---\n"@).is_prefix_of(plain) || forall|i: int, j: int|
                    4 <= i && j == i + 5 && j <= plain.len() ==> #[trigger] plain.subrange(i, j)
                        != "\n---\n"@,
            }
        }),
{
    let plain = text::unix_lines(content);
    reveal_strlit("---\n");
    reveal_strlit("\n---\n");
    assert("---\n"@.len() == 4 && "\n---\n"@.len() == 5);
    text::law_prefixes_are_taken_off(plain, "---\n"@);
    match text::strip_prefix(plain, "---\n"@) {
        None => {
            if ("---\n"@).is_prefix_of(plain) {
                let rest = plain.skip(4);
                assert(plain == "---\n"@ + rest);
                text::law_prefixes_are_taken_off(rest, "---\n"@);
            }
        },
        Some(rest) => {
            text::law_splitting_is_undone_by_joining(rest, "\n---\n"@);
            match text::split_at_first(rest, "\n---\n"@) {
                Some((metadata, body)) => {
                    let top = "---\n"@ + metadata + "\n---\n"@;
                    assert(plain == top + body);
                    assert(top == plain.take(top.len() as int));
                    assert forall|i: int, j: int|
                        4 <= i < 4 + metadata.len() && j == i + 5 && j
                            <= plain.len() implies #[trigger] plain.subrange(i, j)
                        != "\n---\n"@ by {
                        assert(rest.subrange(i - 4, j - 4) != "\n---\n"@);
                        assert(rest.subrange(i - 4, j - 4) == plain.subrange(i, j));
                    }
                },
                None => {
                    assert forall|i: int, j: int|
                        4 <= i && j == i + 5 && j <= plain.len() implies #[trigger] plain.subrange(
                        i,
                        j,
                    ) != "\n---\n"@ by {
                        assert(rest.subrange(i - 4, j - 4) != "\n---\n"@);
                        assert(rest.subrange(i - 4, j - 4) == plain.subrange(i, j));
                    }
                },
            }
        },
    }
}

/// Of the lines that give a key, the last one counts; a line without a colon gives nothing, and the
/// key of a line is what stands in front of its first colon.
pub proof fn law_the_last_line_of_a_key_counts(
    lines: Seq<Seq<char>>,
    name: Seq<char>,
    value: Seq<char>,
    key: Seq<char>,
)
    requires
        !name.contains(':'),
    ensures
        last_value(Seq::<Seq<char>>::empty(), key) is None,
        last_value(lines.push(name), key) == last_value(lines, key),
        text::trim_both(CharSet::White, name) == key ==> last_value(
            lines.push(name + ":"@ + value),
            key,
        ) == Some(text::trim_both(CharSet::Quote, text::trim_both(CharSet::White, value))),
        text::trim_both(CharSet::White, name) != key ==> last_value(
            lines.push(name + ":"@ + value),
            key,
        ) == last_value(lines, key),
{
    reveal_strlit(":");
    let line = name + ":"@ + value;
    assert(lines.push(name).drop_last() == lines);
    assert(lines.push(line).drop_last() == lines);
    text::law_splitting_is_undone_by_joining(name, ":"@);
    text::law_splitting_is_undone_by_joining(line, ":"@);
    if let Some((front, back)) = text::split_at_first(name, ":"@) {
        assert(name[front.len() as int] == ':');
        assert(name.contains(name[front.len() as int]));
    }
    assert(line[name.len() as int] == ':');
    assert(line.subrange(name.len() as int, name.len() as int + 1) == ":"@);
    match text::split_at_first(line, ":"@) {
        Some((front, back)) => {
            assert(line[front.len() as int] == ':');
            if front.len() < name.len() {
                assert(name[front.len() as int] == ':');
                assert(name.contains(name[front.len() as int]));
            }
            if front.len() > name.len() {
                assert(line.subrange(name.len() as int, name.len() as int + 1) != ":"@);
            }
            assert(front == line.take(name.len() as int));
            assert(front == name);
            assert(back == line.skip(name.len() as int + 1));
            assert(back == value);
        },
        None => {},
    }
}

/// A skill file is accepted exactly where its top names the skill with letters, digits, underscores
/// and hyphens, and describes it in up to five hundred characters; name and description are what its
/// top gives.
pub proof fn law_skill_files_name_and_describe(content: Seq<char>)
    ensures
        match skill_metadata(content) {
            Ok((name, description)) => {
                &&& front_matter(content) matches Some(metadata) && last_value(
                    text::lines(metadata),
                    "name"@,
                ) == Some(name) && last_value(text::lines(metadata), "description"@) == Some(
                    description,
                )
                &&& 1 <= text::byte_len(name) <= 64
                &&& forall|i: int|
                    0 <= i < name.len() ==> {
                        let c = #[trigger] name[i];
                        'a' <= c <= 'z' || 'A' <= c <= 'Z' || '0' <= c <= '9' || c == '_' || c
                            == '-'
                    }
                &&& 1 <= description.len() <= 500
            },
            Err(_) => {
                ||| front_matter(content) is None
                ||| (front_matter(content) matches Some(metadata) && {
                    let name = last_value(text::lines(metadata), "name"@);
                    let description = last_value(text::lines(metadata), "description"@);
                    ||| name is None
                    ||| description is None
                    ||| text::byte_len(name->0) < 1
                    ||| text::byte_len(name->0) > 64
                    ||| description->0.len() < 1
                    ||| description->0.len() > 500
                    ||| exists|i: int|
                        0 <= i < name->0.len() && {
                            let c = #[trigger] name->0[i];
                            !('a' <= c <= 'z' || 'A' <= c <= 'Z' || '0' <= c <= '9' || c == '_' || c
                                == '-')
                        }
                })
            },
        },
{
}

/// A skill file that is read whole is taken on with its name, its description and all its content,
/// besides the skills that were there; it is refused exactly where it goes over the limit, is not
/// well formed, or takes a name that is taken.
pub proof fn law_skills_are_taken_on(scan: ScanV, shown: Seq<char>, content: Seq<char>)
    requires
        scan.total_chars + content.len() <= usize::MAX,
    ensures
        match scan_skill(scan, shown, content) {
            Ok(grown) => {
                let (name, description) = skill_metadata(content)->Ok_0;
                let skill = SkillV { name, description, content };
                &&& skill_metadata(content) is Ok
                &&& scan.total_chars + content.len() <= scan.max_chars
                &&& grown.total_chars == scan.total_chars + content.len()
                &&& grown.skills.to_multiset() == scan.skills.to_multiset().insert(skill)
                &&& forall|i: int|
                    0 <= i < scan.skills.len() ==> (#[trigger] scan.skills[i]).name != name
                &&& grown.max_chars == scan.max_chars && grown.root == scan.root
            },
            Err(error) => {
                ||| scan.total_chars + content.len() > scan.max_chars && error == (
                SkillErrorV::TooLarge { limit: scan.max_chars })
                ||| (skill_metadata(content) matches Err(message) && error == (
                SkillErrorV::Invalid { path: shown, message }))
                ||| (skill_metadata(content) matches Ok((name, _)) && error
                    == SkillErrorV::Duplicate(name) && exists|i: int|
                    0 <= i < scan.skills.len() && (#[trigger] scan.skills[i]).name == name)
            },
        },
{
    if let Ok((name, description)) = skill_metadata(content) {
        lemma_skill_named(scan.skills, name);
        lemma_with_skill_holds(scan.skills, SkillV { name, description, content });
    }
}

proof fn lemma_skill_named(skills: Seq<SkillV>, name: Seq<char>)
    ensures
        match skill_named(skills, name) {
            Some(skill) => skill.name == name && skills.contains(skill),
            None => forall|i: int| 0 <= i < skills.len() ==> (#[trigger] skills[i]).name != name,
        },
    decreases skills.len(),
{
    if skills.len() > 0 {
        let front = skills.drop_last();
        lemma_skill_named(front, name);
        assert(skills[skills.len() - 1] == skills.last());
        match skill_named(skills, name) {
            Some(skill) => {
                if skills.last().name != name {
                    let i = front.index_of(skill);
                    assert(skills[i] == skill);
                }
            },
            None => {
                assert forall|i: int| 0 <= i < skills.len() implies (#[trigger] skills[i]).name
                    != name by {
                    if i < front.len() {
                        assert(front[i] == skills[i]);
                    }
                }
            },
        }
    }
}

proof fn lemma_with_skill_holds(skills: Seq<SkillV>, skill: SkillV)
    ensures
        with_skill(skills, skill).to_multiset() == skills.to_multiset().insert(skill),
    decreases skills.len(),
{
    broadcast use vstd::seq_lib::group_to_multiset_ensures;

    if skills.len() > 0 && text::text_lt(skill.name, skills.last().name) {
        lemma_with_skill_holds(skills.drop_last(), skill);
        let inner = with_skill(skills.drop_last(), skill);
        assert(skills == skills.drop_last().push(skills.last()));
        assert(inner.push(skills.last()).to_multiset() == inner.to_multiset().insert(
            skills.last(),
        ));
        assert(with_skill(skills, skill).to_multiset() == skills.to_multiset().insert(skill));
    }
}

/// A skill is read by its name: where names differ, each skill of a registry is found under its own,
/// and nothing under a name that no skill has.
pub proof fn law_skills_are_found_by_name(skills: Seq<SkillV>, i: int, name: Seq<char>)
    requires
        names_grow(skills),
    ensures
        0 <= i < skills.len() ==> skill_named(skills, skills[i].name) == Some(skills[i]),
        skill_named(skills, name) is None <==> forall|j: int|
            0 <= j < skills.len() ==> (#[trigger] skills[j]).name != name,
{
    lemma_skill_named(skills, name);
    if let Some(skill) = skill_named(skills, name) {
        let k = skills.index_of(skill);
        assert(skills[k].name == name);
    }
    if 0 <= i < skills.len() {
        lemma_skill_named(skills, skills[i].name);
        match skill_named(skills, skills[i].name) {
            Some(skill) => {
                let k = skills.index_of(skill);
                text::lemma_text_lt_irreflexive(skills[i].name);
                assert(skills[k].name == skills[i].name);
            },
            None => {},
        }
    }
}

/// A skill is listed by its name and its description.
pub proof fn law_skills_are_listed_with_descriptions(skill: SkillV)
    ensures
        skill_line(skill) == skill.name + ": "@ + skill.description,
{
}

/// A scan looks through both places of a project, one after the other, at every package that has a
/// skill file, and gives back all skills that it took on; what is missing is passed over, and what
/// cannot be read or leads out of where it should be ends it with an error.
pub proof fn law_scans_look_everywhere(scan: ScanV, reply: SkillReplyV)
    ensures
        ({
            let (next, step) = scan_step(scan, reply);
            let failed = |error: SkillErrorV|
                step == (SkillStepV::Done { result: Err(error) }) && next.phase is Over;
            &&& scan.phase matches SkillPhaseV::Directory { index } ==> {
                &&& reply == (SkillReplyV::Place { place: PlaceV::Missing }) && index == 0 ==> step
                    == (SkillStepV::Directory { relative: ".codehelm/skills"@ }) && next.skills
                    == scan.skills
                &&& reply == (SkillReplyV::Place { place: PlaceV::Missing }) && index == 1 ==> step
                    == (SkillStepV::Done { result: Ok(scan.skills) })
                &&& reply matches SkillReplyV::Place {
                    place: PlaceV::Found { path, canonical, .. },
                } ==> if scan.root.is_prefix_of(canonical) {
                    step is List && next.skills == scan.skills
                } else {
                    failed(SkillErrorV::Escape(path))
                }
                &&& reply matches SkillReplyV::Place { place: PlaceV::Failed { path, source } }
                    ==> failed(SkillErrorV::Io { path, source })
            }
            &&& scan.phase matches SkillPhaseV::Entry { listing } ==> {
                &&& reply == (SkillReplyV::Entry { entry: EntryV::End }) && listing.index == 0
                    ==> step == (SkillStepV::Directory { relative: ".codehelm/skills"@ })
                    && next.skills == scan.skills
                &&& reply == (SkillReplyV::Entry { entry: EntryV::End }) && listing.index == 1
                    ==> step == (SkillStepV::Done { result: Ok(scan.skills) })
                &&& reply == (SkillReplyV::Entry { entry: EntryV::Other }) ==> step is NextEntry
                    && next == scan
                &&& reply matches SkillReplyV::Entry {
                    entry: EntryV::Directory { path, canonical: Ok(package) },
                } ==> if listing.directory.is_prefix_of(package) {
                    step is File && next.skills == scan.skills && next.phase == (
                    SkillPhaseV::File { listing, package })
                } else {
                    failed(SkillErrorV::Escape(path))
                }
                &&& reply matches SkillReplyV::Entry {
                    entry: EntryV::Directory { path, canonical: Err(source) },
                } ==> failed(SkillErrorV::Io { path, source })
                &&& reply matches SkillReplyV::Entry { entry: EntryV::Unreadable { path, source } }
                    ==> failed(SkillErrorV::Io { path, source })
                &&& reply matches SkillReplyV::Entry { entry: EntryV::Failed { source } }
                    ==> failed(SkillErrorV::Io { path: listing.shown, source })
            }
            &&& scan.phase matches SkillPhaseV::Listing { listing } ==> {
                &&& reply == (SkillReplyV::Listed { result: Ok(()) }) ==> step is NextEntry
                    && next.phase == (SkillPhaseV::Entry { listing }) && next.skills == scan.skills
                &&& reply matches SkillReplyV::Listed { result: Err(source) } ==> failed(
                    SkillErrorV::Io { path: listing.shown, source },
                )
            }
            &&& scan.phase matches SkillPhaseV::File { listing, package } ==> {
                &&& reply == (SkillReplyV::Place { place: PlaceV::Missing }) ==> step is NextEntry
                    && next.skills == scan.skills && next.phase == (SkillPhaseV::Entry { listing })
                &&& reply matches SkillReplyV::Place {
                    place: PlaceV::Found { path, shown, canonical },
                } ==> if package.is_prefix_of(canonical) {
                    step is Content && next.phase == (SkillPhaseV::Content {
                        listing,
                        file: canonical,
                        shown,
                    }) && next.skills == scan.skills
                } else {
                    failed(SkillErrorV::Escape(path))
                }
                &&& reply matches SkillReplyV::Place { place: PlaceV::Failed { path, source } }
                    ==> failed(SkillErrorV::Io { path, source })
            }
            &&& scan.phase matches SkillPhaseV::Content { listing, shown, .. } ==> {
                &&& reply matches SkillReplyV::Content { result: Err(source) } ==> failed(
                    SkillErrorV::Io { path: shown, source },
                )
                &&& reply matches SkillReplyV::Content { result: Ok(content) } ==> match scan_skill(
                    scan,
                    shown,
                    content,
                ) {
                    Ok(grown) => step is NextEntry && next.skills == grown.skills
                        && next.total_chars == grown.total_chars && next.phase == (
                    SkillPhaseV::Entry { listing }),
                    Err(error) => failed(error),
                }
            }
        }),
{
}

/// A skill error shows what it is about: the path or the name, what is wrong, or the limit.
pub proof fn law_skill_errors_show_what_they_know(
    path: Seq<char>,
    message: Seq<char>,
    limit: usize,
)
    ensures
        skill_error_text(SkillErrorV::Io { path, source: message })
            == "failed to inspect skill path "@ + (path + ": "@ + message),
        skill_error_text(SkillErrorV::Invalid { path, message }) == "invalid skill "@ + (path
            + ": "@ + message),
        path.is_suffix_of(skill_error_text(SkillErrorV::Escape(path))),
        ("`"@ + path + "`"@).is_suffix_of(skill_error_text(SkillErrorV::Duplicate(path))),
        (text::decimal_text(limit as nat) + " character limit"@).is_suffix_of(
            skill_error_text(SkillErrorV::TooLarge { limit }),
        ),
{
    let escape = skill_error_text(SkillErrorV::Escape(path));
    assert(path == escape.subrange(escape.len() - path.len(), escape.len() as int));
    let twice = skill_error_text(SkillErrorV::Duplicate(path));
    let quoted = "`"@ + path + "`"@;
    reveal_strlit("duplicate skill name `");
    reveal_strlit("`");
    assert(quoted == twice.subrange(twice.len() - quoted.len(), twice.len() as int));
    let large = skill_error_text(SkillErrorV::TooLarge { limit });
    let end = text::decimal_text(limit as nat) + " character limit"@;
    assert(end == large.subrange(large.len() - end.len(), large.len() as int));
}

} // verus!
