//! Sessions: conversations that can be taken up again.
use vstd::prelude::*;

use crate::error;
use crate::error::{AgentError, ErrorV};
use crate::protocol;
use crate::protocol::{clone_items, ConversationItem, ItemV};
use crate::text;
use crate::text::{cat2, cat4, cat5, decimal, plain_id, same_text};

verus! {

/// The version of what is written down of a session.
pub const SCHEMA_VERSION: u32 = 1;

/// A session.
#[derive(Debug, PartialEq)]
pub struct Session {
    pub schema_version: u32,
    pub id: String,
    pub mode: String,
    pub provider: String,
    pub model: String,
    pub created_at_ms: u128,
    pub updated_at_ms: u128,
    pub items: Vec<ConversationItem>,
}

/// A session, in the model.
#[verifier::ext_equal]
pub struct SessionV {
    pub schema_version: u32,
    pub id: Seq<char>,
    pub mode: Seq<char>,
    pub provider: Seq<char>,
    pub model: Seq<char>,
    pub created_at_ms: u128,
    pub updated_at_ms: u128,
    pub items: Seq<ItemV>,
}

impl View for Session {
    type V = SessionV;

    open spec fn view(&self) -> SessionV {
        SessionV {
            schema_version: self.schema_version,
            id: self.id@,
            mode: self.mode@,
            provider: self.provider@,
            model: self.model@,
            created_at_ms: self.created_at_ms,
            updated_at_ms: self.updated_at_ms,
            items: protocol::item_views(self.items@),
        }
    }
}

/// A session that is kept.
#[derive(Debug)]
pub struct SessionStore {
    session: Session,
}

impl View for SessionStore {
    type V = SessionV;

    closed spec fn view(&self) -> SessionV {
        self.session@
    }
}

/// The error of a session.
pub fn session_error(message: String) -> (error: AgentError)
    ensures
        error@ == ErrorV::Session(message@),
{
    AgentError::Session(message)
}

/// What keeping or taking up a session gives.
pub open spec fn store_result(result: Result<SessionStore, AgentError>) -> Result<
    SessionV,
    ErrorV,
> {
    match result {
        Ok(store) => Ok(store@),
        Err(error) => Err(error@),
    }
}

/// What a session that was read comes to: it must be whole, of a known version, and the one that
/// was asked for.
pub open spec fn loaded_session(id: Seq<char>, read: Result<SessionV, Seq<char>>) -> Result<
    SessionV,
    ErrorV,
> {
    match read {
        Err(error) => Err(
            ErrorV::Session("session "@ + id + " is corrupt: "@ + error),
        ),
        Ok(session) => if session.schema_version != SCHEMA_VERSION {
            Err(
                ErrorV::Session(
                    "unsupported session schema "@ + text::decimal_text(
                        session.schema_version as nat,
                    ),
                ),
            )
        } else if session.id != id {
            Err(ErrorV::Session("session id does not match filename"@))
        } else {
            Ok(session)
        },
    }
}

/// What decoding a session gave.
pub open spec fn read_session(read: Result<Session, String>) -> Result<SessionV, Seq<char>> {
    match read {
        Ok(session) => Ok(session@),
        Err(error) => Err(error@),
    }
}

/// A new session.
pub open spec fn new_session(
    now: u128,
    process: u32,
    sequence: u64,
    mode: Seq<char>,
    provider: Seq<char>,
    model: Seq<char>,
) -> SessionV {
    SessionV {
        schema_version: SCHEMA_VERSION,
        id: made_id(now, process, sequence),
        mode,
        provider,
        model,
        created_at_ms: now,
        updated_at_ms: now,
        items: seq![],
    }
}

/// A session that took over a conversation: it replaces the one before.
pub open spec fn recorded(session: SessionV, items: Seq<ItemV>, now: u128) -> SessionV {
    SessionV { items, updated_at_ms: now, ..session }
}

impl SessionStore {
    /// A new session, named after the time, the process and how many were made in it.
    pub fn create(
        now: u128,
        process: u32,
        sequence: u64,
        mode: &str,
        provider: &str,
        model: &str,
    ) -> (store: Self)
        ensures
            store@ == new_session(now, process, sequence, mode@, provider@, model@),
    {
        let id = cat5(
            decimal(now).as_str(),
            "-",
            decimal(process as u128).as_str(),
            "-",
            decimal(sequence as u128).as_str(),
        );
        let store = SessionStore {
            session: Session {
                schema_version: SCHEMA_VERSION,
                id,
                mode: mode.to_owned(),
                provider: provider.to_owned(),
                model: model.to_owned(),
                created_at_ms: now,
                updated_at_ms: now,
                items: Vec::new(),
            },
        };
        assert(store@.items == Seq::<ItemV>::empty());
        store
    }

    /// Takes up a session that was read for an identity.
    pub fn load(id: &str, read: Result<Session, String>) -> (store: Result<Self, AgentError>)
        ensures
            store_result(store) == loaded_session(id@, read_session(read)),
    {
        let session = match read {
            Ok(session) => session,
            Err(error) => {
                return Err(
                    session_error(cat4("session ", id, " is corrupt: ", error.as_str())),
                );
            },
        };
        if session.schema_version != SCHEMA_VERSION {
            return Err(
                session_error(
                    cat2(
                        "unsupported session schema ",
                        decimal(session.schema_version as u128).as_str(),
                    ),
                ),
            );
        }
        if !same_text(session.id.as_str(), id) {
            return Err(session_error("session id does not match filename".to_owned()));
        }
        Ok(SessionStore { session })
    }

    /// The identity of the session.
    pub fn id(&self) -> (id: &str)
        ensures
            id@ == self@.id,
    {
        self.session.id.as_str()
    }

    /// The session.
    pub fn session(&self) -> (session: &Session)
        ensures
            session@ == self@,
    {
        &self.session
    }

    /// The name of the file that the session is written to.
    pub fn file_name(&self) -> (name: String)
        ensures
            name@ == self@.id + ".json"@,
    {
        cat2(self.session.id.as_str(), ".json")
    }

    /// The name of the file that the events of the session are appended to.
    pub fn journal_name(&self) -> (name: String)
        ensures
            name@ == self@.id + ".jsonl"@,
    {
        cat2(self.session.id.as_str(), ".jsonl")
    }

    /// Takes over a conversation.
    pub fn save_items(&mut self, items: &Vec<ConversationItem>, now: u128)
        ensures
            final(self)@ == recorded(old(self)@, protocol::item_views(items@), now),
    {
        self.session.items = clone_items(items.as_slice());
        self.session.updated_at_ms = now;
    }
}

/// Which session is asked for.
#[derive(Debug, Clone, PartialEq, Eq)]
pub enum SessionRequest {
    Latest,
    Id(String),
}

/// Whether a text may name a session.
pub fn validate_id(id: &str) -> (result: Result<(), AgentError>)
    ensures
        error::unit_result(result) == if text::is_plain_id(id@) {
            Ok::<(), ErrorV>(())
        } else {
            Err(ErrorV::Session("invalid session id"@))
        },
{
    if plain_id(id) {
        Ok(())
    } else {
        Err(session_error("invalid session id".to_owned()))
    }
}

/// Which session a text asks for.
pub fn requested_session(id: &str) -> (request: Result<SessionRequest, AgentError>)
    ensures
        if id@ == "latest"@ {
            request matches Ok(r) && r is Latest
        } else if text::is_plain_id(id@) {
            request matches Ok(SessionRequest::Id(r)) && r@ == id@
        } else {
            request matches Err(error) && error@ == ErrorV::Session("invalid session id"@)
        },
{
    if same_text(id, "latest") {
        return Ok(SessionRequest::Latest);
    }
    match validate_id(id) {
        Ok(()) => Ok(SessionRequest::Id(id.to_owned())),
        Err(error) => Err(error),
    }
}

/// A file in the place where sessions are kept.
#[derive(Debug, Clone, PartialEq, Eq)]
pub struct SessionFile {
    /// Whether its name ends like that of a session.
    pub json: bool,
    /// What it says, where it could be read and decoded.
    pub summary: Option<SessionSummary>,
}

/// What tells sessions apart.
#[derive(Debug, Clone, PartialEq, Eq)]
pub struct SessionSummary {
    pub schema_version: u32,
    pub updated_at_ms: u128,
    pub id: String,
}

/// Whether a file is a session that can be taken up.
pub open spec fn is_session(file: SessionFile) -> bool {
    file.json && file.summary is Some && file.summary->0.schema_version == SCHEMA_VERSION
}

/// Which of the first `n` files is the session that was written last: the first of those that were
/// written at the latest time.
pub open spec fn latest_session(files: Seq<SessionFile>, n: nat) -> Option<nat>
    decreases n,
{
    if n == 0 {
        None
    } else {
        let i = (n - 1) as nat;
        let before = latest_session(files, i);
        let file = files[i as int];
        if is_session(file) && (before is None || file.summary->0.updated_at_ms
            > files[before->0 as int].summary->0.updated_at_ms) {
            Some(i)
        } else {
            before
        }
    }
}

/// What looking for sessions gave.
pub enum SessionListing {
    Missing,
    Failed(String),
    Files(Vec<SessionFile>),
}

/// The identity of the session that was written last.
pub open spec fn latest_verdict(listing: SessionListing) -> Result<Seq<char>, ErrorV> {
    match listing {
        SessionListing::Missing => Err(ErrorV::Session("no saved sessions"@)),
        SessionListing::Failed(source) => Err(ErrorV::Session(source@)),
        SessionListing::Files(files) => match latest_session(files@, files@.len()) {
            Some(i) => Ok(files@[i as int].summary->0.id@),
            None => Err(ErrorV::Session("no valid saved sessions"@)),
        },
    }
}

/// The latest session is one, and none was written after it.
pub proof fn law_latest_is_latest(files: Seq<SessionFile>, n: nat)
    requires
        n <= files.len(),
    ensures
        match latest_session(files, n) {
            Some(i) => {
                &&& i < n
                &&& is_session(files[i as int])
                &&& forall|j: int|
                    0 <= j < n && is_session(#[trigger] files[j])
                        ==> files[j].summary->0.updated_at_ms
                        <= files[i as int].summary->0.updated_at_ms
            },
            None => forall|j: int| 0 <= j < n ==> !is_session(#[trigger] files[j]),
        },
    decreases n,
{
    if n > 0 {
        law_latest_is_latest(files, (n - 1) as nat);
    }
}

/// Finds the session that was written last.
pub fn latest_id(listing: SessionListing) -> (id: Result<String, AgentError>)
    ensures
        error::text_result(id) == latest_verdict(listing),
{
    let files = match listing {
        SessionListing::Missing => {
            return Err(session_error("no saved sessions".to_owned()));
        },
        SessionListing::Failed(source) => {
            return Err(session_error(source));
        },
        SessionListing::Files(files) => files,
    };
    let mut latest: Option<(u128, usize)> = None;
    for i in 0..files.len()
        invariant
            match latest {
                Some((time, at)) => {
                    &&& latest_session(files@, i as nat) == Some(at as nat)
                    &&& at < i
                    &&& is_session(files@[at as int])
                    &&& files@[at as int].summary->0.updated_at_ms == time
                },
                None => latest_session(files@, i as nat) is None,
            },
    {
        if files[i].json {
            if let Some(summary) = &files[i].summary {
                let newer = match latest {
                    Some((time, _)) => summary.updated_at_ms > time,
                    None => true,
                };
                if summary.schema_version == SCHEMA_VERSION && newer {
                    latest = Some((summary.updated_at_ms, i));
                }
            }
        }
    }
    match latest {
        Some((_, at)) => match &files[at].summary {
            Some(summary) => Ok(summary.id.clone()),
            None => Err(session_error("no valid saved sessions".to_owned())),
        },
        None => Err(session_error("no valid saved sessions".to_owned())),
    }
}

/// Keeps the conversation of an agent in a session.
pub struct SessionRecorder {
    store: SessionStore,
}

impl View for SessionRecorder {
    type V = SessionV;

    closed spec fn view(&self) -> SessionV {
        self.store@
    }
}

impl SessionRecorder {
    /// A recorder for a session.
    pub fn new(store: SessionStore) -> (recorder: Self)
        ensures
            recorder@ == store@,
    {
        SessionRecorder { store }
    }

    /// The identity of the session.
    pub fn id(&self) -> (id: String)
        ensures
            id@ == self@.id,
    {
        self.store.session.id.clone()
    }

    /// The conversation of the session.
    pub fn items(&self) -> (items: Vec<ConversationItem>)
        ensures
            protocol::item_views(items@) == self@.items,
    {
        clone_items(self.store.session.items.as_slice())
    }

    /// The session, to be written down.
    pub fn store(&self) -> (store: &SessionStore)
        ensures
            store@ == self@,
    {
        &self.store
    }

    /// Takes over a conversation.
    pub fn record(&mut self, items: &Vec<ConversationItem>, now: u128)
        ensures
            final(self)@ == recorded(old(self)@, protocol::item_views(items@), now),
    {
        self.store.save_items(items, now);
    }
}

/// The identity of a session, made of numbers.
pub open spec fn made_id(now: u128, process: u32, sequence: u64) -> Seq<char> {
    text::decimal_text(now as nat) + "-"@ + text::decimal_text(process as nat) + "-"@
        + text::decimal_text(sequence as nat)
}

/// A session that was made can be asked for by its identity: it is valid, and is not the word that
/// asks for the latest one.
pub proof fn law_made_ids_are_valid(now: u128, process: u32, sequence: u64)
    ensures
        text::is_plain_id(made_id(now, process, sequence)),
        made_id(now, process, sequence) != "latest"@,
{
    text::lemma_decimal_is_plain(now as nat);
    text::lemma_decimal_is_plain(process as nat);
    text::lemma_decimal_is_plain(sequence as nat);
    let front = text::decimal_text(now as nat) + "-"@ + text::decimal_text(process as nat);
    text::lemma_dashed_is_plain(
        text::decimal_text(now as nat),
        text::decimal_text(process as nat),
    );
    text::lemma_dashed_is_plain(front, text::decimal_text(sequence as nat));
    reveal_strlit("-");
    reveal_strlit("latest");
    let id = made_id(now, process, sequence);
    let k = text::decimal_text(now as nat).len() as int;
    assert(id[k] == '-');
    if id == "latest"@ {
        assert(k == 0 || k == 1 || k == 2 || k == 3 || k == 4 || k == 5);
    }
}

/// A session that was written down and is read for its own identity is taken up as it was; read for
/// any other it is refused.
pub proof fn law_saved_sessions_resume(session: SessionV, id: Seq<char>)
    requires
        session.schema_version == SCHEMA_VERSION,
    ensures
        loaded_session(session.id, Ok(session)) == Ok::<SessionV, ErrorV>(session),
        id != session.id ==> loaded_session(id, Ok(session)) is Err,
{
}

/// A new session that a conversation was recorded in, and that was written down last, is the latest
/// one, and is taken up with that conversation, its mode, its provider and its model.
pub proof fn law_recorded_sessions_are_found(
    session: SessionV,
    items: Seq<ItemV>,
    now: u128,
    files: Seq<SessionFile>,
    k: int,
)
    requires
        session.schema_version == SCHEMA_VERSION,
        0 <= k < files.len(),
        is_session(files[k]),
        files[k].summary->0.id@ == session.id,
        files[k].summary->0.updated_at_ms == now,
        forall|j: int|
            0 <= j < files.len() && j != k && is_session(#[trigger] files[j])
                ==> files[j].summary->0.updated_at_ms < now,
    ensures
        latest_session(files, files.len()) == Some(k as nat),
        ({
            let kept = recorded(session, items, now);
            &&& loaded_session(session.id, Ok(kept)) == Ok::<SessionV, ErrorV>(kept)
            &&& kept.items == items && kept.id == session.id && kept.mode == session.mode
            &&& kept.provider == session.provider && kept.model == session.model
        }),
{
    law_latest_is_latest(files, files.len());
}

/// Recording replaces the conversation: only the last one that was recorded counts.
pub proof fn law_the_last_recording_counts(
    session: SessionV,
    items: Seq<ItemV>,
    before: u128,
    later: Seq<ItemV>,
    now: u128,
)
    ensures
        recorded(recorded(session, items, before), later, now) == recorded(session, later, now),
        recorded(session, later, now).items == later,
        recorded(session, later, now).id == session.id,
{
}

/// Two sessions have the same identity only where they were made at the same time, by the same
/// process, with the same number.
pub proof fn law_made_ids_differ(
    now: u128,
    process: u32,
    sequence: u64,
    other_now: u128,
    other_process: u32,
    other_sequence: u64,
)
    requires
        made_id(now, process, sequence) == made_id(other_now, other_process, other_sequence),
    ensures
        now == other_now,
        process == other_process,
        sequence == other_sequence,
{
    let (a, b, c) = (
        text::decimal_text(now as nat),
        text::decimal_text(process as nat),
        text::decimal_text(sequence as nat),
    );
    let (d, e, f) = (
        text::decimal_text(other_now as nat),
        text::decimal_text(other_process as nat),
        text::decimal_text(other_sequence as nat),
    );
    text::lemma_decimal_has_no_dash(now as nat);
    text::lemma_decimal_has_no_dash(process as nat);
    text::lemma_decimal_has_no_dash(other_now as nat);
    text::lemma_decimal_has_no_dash(other_process as nat);
    assert(a + "-"@ + b + "-"@ + c == a + "-"@ + (b + "-"@ + c));
    assert(d + "-"@ + e + "-"@ + f == d + "-"@ + (e + "-"@ + f));
    text::law_dashes_tell_parts_apart(a, b + "-"@ + c, d, e + "-"@ + f);
    text::law_dashes_tell_parts_apart(b, c, e, f);
    text::law_decimals_differ(now as nat, other_now as nat);
    text::law_decimals_differ(process as nat, other_process as nat);
    text::law_decimals_differ(sequence as nat, other_sequence as nat);
}

/// A new session is empty, was made and changed now, and knows its mode, its provider and its model;
/// recording changes its conversation and the time of its last change, and nothing else.
pub proof fn law_sessions_know_how_they_were_made(
    now: u128,
    process: u32,
    sequence: u64,
    mode: Seq<char>,
    provider: Seq<char>,
    model: Seq<char>,
    items: Seq<ItemV>,
    later: u128,
)
    ensures
        ({
            let session = new_session(now, process, sequence, mode, provider, model);
            let kept = recorded(session, items, later);
            &&& session.items.len() == 0
            &&& session.mode == mode && session.provider == provider && session.model == model
            &&& session.created_at_ms == now && session.updated_at_ms == now
            &&& session.schema_version == 1
            &&& session.id == text::decimal_text(now as nat) + "-"@ + text::decimal_text(
                process as nat,
            ) + "-"@ + text::decimal_text(sequence as nat)
            &&& kept.items == items
            &&& kept.updated_at_ms == later
            &&& kept.created_at_ms == now
            &&& kept.id == session.id && kept.mode == mode && kept.provider == provider
            &&& kept.model == model && kept.schema_version == 1
        }),
{
}

/// A session is taken up, with all that it holds, exactly where it could be read, is of the version
/// that is understood and has the identity that was asked for; else the error says what is wrong.
pub proof fn law_only_whole_sessions_are_taken_up(
    id: Seq<char>,
    read: Result<SessionV, Seq<char>>,
)
    ensures
        loaded_session(id, read) is Ok <==> (read matches Ok(session) && session.schema_version == 1
            && session.id == id),
        loaded_session(id, read) matches Ok(session) ==> read == Ok::<SessionV, Seq<char>>(session),
        read matches Err(error) ==> loaded_session(id, read) == Err::<SessionV, ErrorV>(
            ErrorV::Session("session "@ + id + " is corrupt: "@ + error),
        ),
        read matches Ok(session) ==> (session.schema_version != 1 ==> loaded_session(id, read)
            == Err::<SessionV, ErrorV>(
            ErrorV::Session(
                "unsupported session schema "@ + text::decimal_text(
                    session.schema_version as nat,
                ),
            ),
        )),
{
}

/// The session that was written last is found among the files that are sessions of the version that
/// is understood, the first of them where several were written at that time; where there is none,
/// the error says whether anything was looked through.
pub proof fn law_the_latest_session_is_found(listing: SessionListing)
    ensures
        match listing {
            SessionListing::Missing => latest_verdict(listing) == Err::<Seq<char>, ErrorV>(
                ErrorV::Session("no saved sessions"@),
            ),
            SessionListing::Failed(source) => latest_verdict(listing) == Err::<Seq<char>, ErrorV>(
                ErrorV::Session(source@),
            ),
            SessionListing::Files(files) => match latest_verdict(listing) {
                Ok(id) => exists|i: int|
                    #![trigger files@[i]]
                    {
                        &&& 0 <= i < files@.len()
                        &&& files@[i].json && (files@[i].summary matches Some(found) && {
                            &&& found.id@ == id
                            &&& found.schema_version == 1
                            &&& forall|j: int|
                                0 <= j < files@.len() && (#[trigger] files@[j]).json && (
                                files@[j].summary matches Some(other) && other.schema_version == 1)
                                    ==> if j < i {
                                    files@[j].summary->0.updated_at_ms < found.updated_at_ms
                                } else {
                                    files@[j].summary->0.updated_at_ms <= found.updated_at_ms
                                }
                        })
                    },
                Err(error) => {
                    &&& error == ErrorV::Session("no valid saved sessions"@)
                    &&& forall|j: int|
                        0 <= j < files@.len() ==> !((#[trigger] files@[j]).json && (
                        files@[j].summary matches Some(other) && other.schema_version == 1))
                },
            },
        },
{
    if let SessionListing::Files(files) = listing {
        lemma_latest_session(files@, files@.len());
        if let Some(i) = latest_session(files@, files@.len()) {
            assert(files@[i as int].json);
        }
    }
}

proof fn lemma_latest_session(files: Seq<SessionFile>, n: nat)
    requires
        n <= files.len(),
    ensures
        match latest_session(files, n) {
            Some(i) => {
                &&& i < n
                &&& is_session(files[i as int])
                &&& forall|j: int|
                    0 <= j < n && is_session(#[trigger] files[j]) ==> if j < i {
                        files[j].summary->0.updated_at_ms
                            < files[i as int].summary->0.updated_at_ms
                    } else {
                        files[j].summary->0.updated_at_ms
                            <= files[i as int].summary->0.updated_at_ms
                    }
            },
            None => forall|j: int| 0 <= j < n ==> !is_session(#[trigger] files[j]),
        },
    decreases n,
{
    if n > 0 {
        lemma_latest_session(files, (n - 1) as nat);
    }
}

} // verus!
