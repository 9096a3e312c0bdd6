//! The command table: what each request does to the store and what is sent
//! back.
use vstd::prelude::*;
use vstd::string::StringExecFns;
use vstd::utf8::{encode_utf8, encode_utf8_decode_utf8};
use crate::parser::{Command, CommandView};
use crate::replication::{empty_rdb, empty_snapshot};
use crate::server::{MetadataView, Role, ServerMetadata};
use crate::server_info::{get_server_info, info_payload, FIELD_SEPARATOR};
use crate::storage::{
    duration_millis, invalid_duration, live_at, lookup, missing_duration, without_expired, DBEntry,
    DBEntryValueType, EntryView, Store,
};
use crate::wire::{
    bulk_bytes, bulk_header, bulk_string, crlf, decimal, encode_bulk_string, encode_null_bulk,
    encode_simple_string, null_bulk, push_bulk_header, push_bytes, push_crlf, push_decimal,
    simple_string, PLUS,
};

verus! {

/// Why a command could not be carried out.
#[derive(Debug)]
pub enum CommandError {
    /// The command name is not in the table; holds the name as received.
    CommandNotFound(String),
    /// An argument is missing or does not have the form it must have.
    InvalidArgument(String),
    /// The key holds no live value.
    StorageError(String),
    /// The command failed while it ran.
    ErrorWhileExecution(String),
}

/// The mathematical content of a [`CommandError`].
pub enum CommandErrorView {
    CommandNotFound(Seq<char>),
    InvalidArgument(Seq<char>),
    StorageError(Seq<char>),
    ErrorWhileExecution(Seq<char>),
}

impl View for CommandError {
    type V = CommandErrorView;

    open spec fn view(&self) -> CommandErrorView {
        match self {
            CommandError::CommandNotFound(name) => CommandErrorView::CommandNotFound(name@),
            CommandError::InvalidArgument(what) => CommandErrorView::InvalidArgument(what@),
            CommandError::StorageError(what) => CommandErrorView::StorageError(what@),
            CommandError::ErrorWhileExecution(what) => CommandErrorView::ErrorWhileExecution(
                what@,
            ),
        }
    }
}

/// The message that describes `error`.
pub open spec fn error_text(error: CommandErrorView) -> Seq<char> {
    match error {
        CommandErrorView::CommandNotFound(name) => "Command not found: "@ + name,
        CommandErrorView::InvalidArgument(what) => "Invalid arguments: "@ + what,
        CommandErrorView::StorageError(what) => "Storage error: "@ + what,
        CommandErrorView::ErrorWhileExecution(what) => "Error while executing the command: "@
            + what,
    }
}

impl CommandError {
    /// The message that describes this error.
    pub fn to_string(&self) -> (text: String)
        ensures
            text@ == error_text(self@),
    {
        match self {
            CommandError::CommandNotFound(name) => String::from_str("Command not found: ").concat(
                name.as_str(),
            ),
            CommandError::InvalidArgument(what) => String::from_str("Invalid arguments: ").concat(
                what.as_str(),
            ),
            CommandError::StorageError(what) => String::from_str("Storage error: ").concat(
                what.as_str(),
            ),
            CommandError::ErrorWhileExecution(what) => String::from_str(
                "Error while executing the command: ",
            ).concat(what.as_str()),
        }
    }
}

/// The commands of the table.
#[derive(Debug, Clone, Copy, PartialEq, Eq, Structural)]
pub enum CommandKind {
    Ping,
    Echo,
    GetKey,
    SetKey,
    Info,
    Replconf,
    Psync,
}

/// What a command that succeeded asks of the connection that sent it.
pub struct CommandOutcome {
    /// The bytes to write back.
    pub reply: Vec<u8>,
    /// The frame to publish to the replicas once the reply is written.
    pub propagate: Option<Vec<u8>>,
    /// Whether the connection becomes a replication link: from then on it
    /// carries what is published and reads no more commands.
    pub subscribe: bool,
}

/// The mathematical content of a [`CommandOutcome`].
pub struct OutcomeView {
    pub reply: Seq<u8>,
    pub propagate: Option<Seq<u8>>,
    pub subscribe: bool,
}

impl View for CommandOutcome {
    type V = OutcomeView;

    open spec fn view(&self) -> OutcomeView {
        OutcomeView {
            reply: self.reply@,
            propagate: match self.propagate {
                Some(frame) => Some(frame@),
                None => None,
            },
            subscribe: self.subscribe,
        }
    }
}

/// What a command does: its result, and the store it leaves.
pub struct Effect {
    pub result: Result<OutcomeView, CommandErrorView>,
    pub store: Map<Seq<char>, EntryView>,
}

/// The content of what a command returned.
pub open spec fn result_view(result: Result<CommandOutcome, CommandError>) -> Result<
    OutcomeView,
    CommandErrorView,
> {
    match result {
        Ok(outcome) => Ok(outcome@),
        Err(error) => Err(error@),
    }
}

/// The ASCII lower-case form of `b`.
pub open spec fn ascii_lower(b: u8) -> u8 {
    if 65 <= b <= 90 {
        (b + 32) as u8
    } else {
        b
    }
}

/// Whether `a` and `b` are the same but for the case of ASCII letters.
pub open spec fn same_ignoring_case(a: Seq<u8>, b: Seq<u8>) -> bool {
    &&& a.len() == b.len()
    &&& forall|i: int| 0 <= i < a.len() ==> ascii_lower(#[trigger] a[i]) == ascii_lower(b[i])
}

/// Whether `text` is `word`, in any mix of upper and lower case.
pub open spec fn is_word(text: Seq<char>, word: Seq<char>) -> bool {
    same_ignoring_case(encode_utf8(text), encode_utf8(word))
}

/// The command that `name` names, whatever its case; `None` for a name that
/// is not in the table.
pub open spec fn command_kind(name: Seq<char>) -> Option<CommandKind> {
    if is_word(name, "ping"@) {
        Some(CommandKind::Ping)
    } else if is_word(name, "echo"@) {
        Some(CommandKind::Echo)
    } else if is_word(name, "get"@) {
        Some(CommandKind::GetKey)
    } else if is_word(name, "set"@) {
        Some(CommandKind::SetKey)
    } else if is_word(name, "info"@) {
        Some(CommandKind::Info)
    } else if is_word(name, "replconf"@) {
        Some(CommandKind::Replconf)
    } else if is_word(name, "psync"@) {
        Some(CommandKind::Psync)
    } else {
        None
    }
}

/// An outcome that is a reply and nothing else.
pub open spec fn only_reply(reply: Seq<u8>) -> OutcomeView {
    OutcomeView { reply, propagate: None, subscribe: false }
}

/// The error for a command that lacks an argument it needs.
pub open spec fn missing_arguments() -> CommandErrorView {
    CommandErrorView::InvalidArgument("Missing arguments"@)
}

/// The error for a key that holds no live value.
pub open spec fn storage_miss() -> CommandErrorView {
    CommandErrorView::StorageError("$-1\r\n"@)
}

/// `PING`: the reply `+PONG`.
pub open spec fn ping_outcome() -> OutcomeView {
    only_reply(simple_string("PONG"@))
}

/// `REPLCONF`: the reply `+OK`, whatever the arguments.
pub open spec fn replconf_outcome() -> OutcomeView {
    only_reply(simple_string("OK"@))
}

/// `ECHO <x>`: the reply `+<x>`.
pub open spec fn echo_result(args: Seq<Seq<char>>) -> Result<OutcomeView, CommandErrorView> {
    if args.len() == 0 {
        Err(missing_arguments())
    } else {
        Ok(only_reply(simple_string(args[0])))
    }
}

/// The reply that carries an entry as read at the instant `now`.
pub open spec fn value_reply(entry: EntryView, now: u64) -> Seq<u8> {
    if live_at(entry, now) {
        bulk_string(entry.value)
    } else {
        null_bulk()
    }
}

/// The bytes that a client is sent for the result of its command.
pub open spec fn reply_bytes(result: Result<OutcomeView, CommandErrorView>) -> Seq<u8> {
    match result {
        Ok(outcome) => outcome.reply,
        Err(error) => error_reply_bytes(error),
    }
}

/// `GET <key>` at the instant `now`: the live value as a bulk string, or a
/// miss. An entry that the read finds expired leaves the store.
pub open spec fn get_effect(args: Seq<Seq<char>>, store: Map<Seq<char>, EntryView>, now: u64) -> Effect {
    if args.len() == 0 {
        Effect { result: Err(missing_arguments()), store }
    } else {
        Effect {
            result: match lookup(store, args[0], now) {
                Some(entry) => Ok(only_reply(bulk_string(entry.value))),
                None => Err(storage_miss()),
            },
            store: without_expired(store, args[0], now),
        }
    }
}

/// The entry that `SET <key> <value> [PX <ms>]` stores at the instant `now`:
/// the value as text, created at `now`, with the time to live that follows
/// `PX` if the third argument is `PX` in any case.
pub open spec fn set_entry(args: Seq<Seq<char>>, now: u64) -> Result<EntryView, CommandErrorView>
    recommends
        args.len() >= 2,
{
    let plain = EntryView {
        value: args[1],
        kind: DBEntryValueType::StringType,
        created_at: now,
        ttl: None,
    };
    if args.len() > 2 && is_word(args[2], "px"@) {
        if args.len() > 3 {
            match duration_millis(args[3]) {
                Some(millis) => Ok(EntryView { ttl: Some(millis as u64), ..plain }),
                None => Err(invalid_duration(args[3])),
            }
        } else {
            Err(missing_duration())
        }
    } else {
        Ok(plain)
    }
}

/// `SET`: stores the entry, replies `+OK`, and on a master hands the frame
/// as received to the replicas. A command that is refused leaves the store
/// as it was.
pub open spec fn set_effect(
    command: CommandView,
    store: Map<Seq<char>, EntryView>,
    metadata: MetadataView,
    now: u64,
) -> Effect {
    if command.args.len() < 2 {
        Effect { result: Err(missing_arguments()), store }
    } else {
        match set_entry(command.args, now) {
            Ok(entry) => Effect {
                result: Ok(
                    OutcomeView {
                        reply: simple_string("OK"@),
                        propagate: if metadata.role == Role::Master {
                            Some(command.raw)
                        } else {
                            None
                        },
                        subscribe: false,
                    },
                ),
                store: store.insert(command.args[0], entry),
            },
            Err(error) => Effect { result: Err(error), store },
        }
    }
}

/// `INFO [section]`: the replication section for no section or the section
/// `replication`, and no bytes at all for any other section.
pub open spec fn info_outcome(args: Seq<Seq<char>>, metadata: MetadataView) -> OutcomeView {
    if args.len() == 0 || args[0] == "replication"@ {
        only_reply(bulk_bytes(info_payload(metadata)))
    } else {
        only_reply(Seq::<u8>::empty())
    }
}

/// The line that acknowledges a full resynchronisation:
/// `+FULLRESYNC <replid> <offset>`.
pub open spec fn fullresync_line(metadata: MetadataView) -> Seq<u8> {
    seq![PLUS] + encode_utf8("FULLRESYNC "@) + encode_utf8(metadata.master_replid) + seq![
        FIELD_SEPARATOR,
    ] + decimal(metadata.master_repl_offset as nat) + crlf()
}

/// `PSYNC`: the acknowledging line, then the snapshot as `$<len>` and its
/// bytes with no line terminator after them; the connection becomes a
/// replication link.
pub open spec fn psync_outcome(metadata: MetadataView) -> OutcomeView {
    OutcomeView {
        reply: fullresync_line(metadata) + bulk_header(empty_rdb().len()) + empty_rdb(),
        propagate: None,
        subscribe: true,
    }
}

/// What `command` does to `store` on a server described by `metadata`, at
/// the instant `now`.
pub open spec fn command_effect(
    command: CommandView,
    store: Map<Seq<char>, EntryView>,
    metadata: MetadataView,
    now: u64,
) -> Effect {
    match command_kind(command.name) {
        Some(CommandKind::Ping) => Effect { result: Ok(ping_outcome()), store },
        Some(CommandKind::Echo) => Effect { result: echo_result(command.args), store },
        Some(CommandKind::GetKey) => get_effect(command.args, store, now),
        Some(CommandKind::SetKey) => set_effect(command, store, metadata, now),
        Some(CommandKind::Info) => Effect { result: Ok(info_outcome(command.args, metadata)), store },
        Some(CommandKind::Replconf) => Effect { result: Ok(replconf_outcome()), store },
        Some(CommandKind::Psync) => Effect { result: Ok(psync_outcome(metadata)), store },
        None => Effect { result: Err(CommandErrorView::CommandNotFound(command.name)), store },
    }
}

/// The bytes that report `error` to the client: the null bulk string for a
/// storage miss, and `+<message>` for every other error.
pub open spec fn error_reply_bytes(error: CommandErrorView) -> Seq<u8> {
    match error {
        CommandErrorView::StorageError(_) => null_bulk(),
        _ => simple_string(error_text(error)),
    }
}

/// An outcome that is `reply` and nothing else.
fn reply_only(reply: Vec<u8>) -> (outcome: CommandOutcome)
    ensures
        outcome@ == only_reply(reply@),
{
    CommandOutcome { reply, propagate: None, subscribe: false }
}

/// The error for a command that lacks an argument it needs.
fn missing_arguments_error() -> (error: CommandError)
    ensures
        error@ == missing_arguments(),
{
    CommandError::InvalidArgument(String::from_str("Missing arguments"))
}

/// Whether `a` and `b` are the same but for the case of ASCII letters.
pub fn eq_ignoring_case(a: &[u8], b: &[u8]) -> (same: bool)
    ensures
        same == same_ignoring_case(a@, b@),
{
    if a.len() != b.len() {
        return false;
    }
    let mut i: usize = 0;
    while i < a.len()
        invariant
            i <= a.len(),
            a.len() == b.len(),
            forall|j: int| 0 <= j < i ==> ascii_lower(#[trigger] a[j]) == ascii_lower(b[j]),
        decreases a.len() - i,
    {
        let x = if 65 <= a[i] && a[i] <= 90 {
            a[i] + 32
        } else {
            a[i]
        };
        let y = if 65 <= b[i] && b[i] <= 90 {
            b[i] + 32
        } else {
            b[i]
        };
        if x != y {
            return false;
        }
        i += 1;
    }
    true
}

/// Whether `a` and `b` are the same text.
pub fn same_text(a: &str, b: &str) -> (same: bool)
    ensures
        same == (a@ == b@),
{
    let x = a.as_bytes();
    let y = b.as_bytes();
    proof {
        encode_utf8_decode_utf8(a@);
        encode_utf8_decode_utf8(b@);
    }
    if x.len() != y.len() {
        return false;
    }
    let mut i: usize = 0;
    while i < x.len()
        invariant
            i <= x.len(),
            x.len() == y.len(),
            x@ == encode_utf8(a@),
            y@ == encode_utf8(b@),
            forall|j: int| 0 <= j < i ==> x[j] == y[j],
        decreases x.len() - i,
    {
        if x[i] != y[i] {
            return false;
        }
        i += 1;
    }
    assert(x@ =~= y@);
    true
}

/// Whether `text` is `word`, in any mix of upper and lower case.
pub fn word_matches(text: &str, word: &str) -> (same: bool)
    ensures
        same == is_word(text@, word@),
{
    eq_ignoring_case(text.as_bytes(), word.as_bytes())
}

/// Finds the command that `name` names, whatever its case.
pub fn lookup_command(name: &str) -> (kind: Option<CommandKind>)
    ensures
        kind == command_kind(name@),
{
    if word_matches(name, "ping") {
        Some(CommandKind::Ping)
    } else if word_matches(name, "echo") {
        Some(CommandKind::Echo)
    } else if word_matches(name, "get") {
        Some(CommandKind::GetKey)
    } else if word_matches(name, "set") {
        Some(CommandKind::SetKey)
    } else if word_matches(name, "info") {
        Some(CommandKind::Info)
    } else if word_matches(name, "replconf") {
        Some(CommandKind::Replconf)
    } else if word_matches(name, "psync") {
        Some(CommandKind::Psync)
    } else {
        None
    }
}

/// The reply that carries `value` as read at the instant `now`: its text as
/// a bulk string, or the null bulk string if it has expired.
pub fn format_result(value: &DBEntry, now: u64) -> (reply: Vec<u8>)
    ensures
        reply@ == value_reply(value@, now),
{
    match value.to_string_at(now) {
        Ok(text) => encode_bulk_string(text.as_str()),
        Err(_) => encode_null_bulk(),
    }
}

/// `PING`.
pub fn ping() -> (outcome: CommandOutcome)
    ensures
        outcome@ == ping_outcome(),
{
    reply_only(encode_simple_string("PONG"))
}

/// `REPLCONF`.
pub fn replconf() -> (outcome: CommandOutcome)
    ensures
        outcome@ == replconf_outcome(),
{
    reply_only(encode_simple_string("OK"))
}

/// `ECHO`.
pub fn echo(args: &Vec<String>) -> (result: Result<CommandOutcome, CommandError>)
    ensures
        result_view(result) == echo_result(args.deep_view()),
{
    if args.len() == 0 {
        return Err(missing_arguments_error());
    }
    Ok(reply_only(encode_simple_string(args[0].as_str())))
}

/// `GET`, at the instant `now`.
pub fn get(args: &Vec<String>, store: &mut Store, now: u64) -> (result: Result<
    CommandOutcome,
    CommandError,
>)
    ensures
        result_view(result) == get_effect(args.deep_view(), old(store)@, now).result,
        final(store)@ == get_effect(args.deep_view(), old(store)@, now).store,
{
    if args.len() == 0 {
        return Err(missing_arguments_error());
    }
    let key = args[0].as_str();
    let result = match store.get(key, now) {
        Some(entry) => Ok(reply_only(format_result(entry, now))),
        None => Err(CommandError::StorageError(String::from_str("$-1\r\n"))),
    };
    store.evict_expired(key, now);
    result
}

/// `SET`, at the instant `now`.
pub fn set(command: &Command, store: &mut Store, metadata: &ServerMetadata, now: u64) -> (result:
    Result<CommandOutcome, CommandError>)
    ensures
        result_view(result) == set_effect(command@, old(store)@, metadata@, now).result,
        final(store)@ == set_effect(command@, old(store)@, metadata@, now).store,
{
    let args = &command.args;
    if args.len() < 2 {
        return Err(missing_arguments_error());
    }
    let mut entry = DBEntry::from_string_at(args[1].as_str(), DBEntryValueType::StringType, now);
    if args.len() > 2 && word_matches(args[2].as_str(), "px") {
        let duration = if args.len() > 3 {
            Some(&args[3])
        } else {
            None
        };
        match entry.set_ttl(duration) {
            Ok(()) => {},
            Err(error) => {
                return Err(error);
            },
        }
    }
    store.insert(args[0].clone(), entry);
    let propagate = match metadata.role {
        Role::Master => Some(command.raw_cmd.clone()),
        Role::Replica => None,
    };
    Ok(CommandOutcome { reply: encode_simple_string("OK"), propagate, subscribe: false })
}

/// `INFO`.
pub fn info(args: &Vec<String>, metadata: &ServerMetadata) -> (outcome: CommandOutcome)
    ensures
        outcome@ == info_outcome(args.deep_view(), metadata@),
{
    if args.len() == 0 || same_text(args[0].as_str(), "replication") {
        reply_only(get_server_info(metadata))
    } else {
        reply_only(Vec::new())
    }
}

/// `PSYNC`.
pub fn psync(metadata: &ServerMetadata) -> (outcome: CommandOutcome)
    ensures
        outcome@ == psync_outcome(metadata@),
{
    let mut reply: Vec<u8> = Vec::new();
    reply.push(PLUS);
    push_bytes(&mut reply, "FULLRESYNC ".as_bytes());
    push_bytes(&mut reply, metadata.master_replid.as_str().as_bytes());
    reply.push(FIELD_SEPARATOR);
    push_decimal(&mut reply, metadata.master_repl_offset as u128);
    push_crlf(&mut reply);
    assert(reply@ =~= fullresync_line(metadata@));
    let rdb = empty_snapshot();
    push_bulk_header(&mut reply, rdb.len());
    push_bytes(&mut reply, rdb.as_slice());
    CommandOutcome { reply, propagate: None, subscribe: true }
}

/// Carries out `command` against `store`, on the server that `metadata`
/// describes, at the instant `now`.
///
/// The command is found by its name, whatever the case of its letters. The
/// result says what to write back and what to publish; an error leaves it to
/// [`error_reply`] to say what the client is told.
pub fn run_command(
    command: &Command,
    store: &mut Store,
    metadata: &ServerMetadata,
    now: u64,
) -> (result: Result<CommandOutcome, CommandError>)
    ensures
        result_view(result) == command_effect(command@, old(store)@, metadata@, now).result,
        final(store)@ == command_effect(command@, old(store)@, metadata@, now).store,
{
    match lookup_command(command.cmd.as_str()) {
        Some(CommandKind::Ping) => Ok(ping()),
        Some(CommandKind::Echo) => echo(&command.args),
        Some(CommandKind::GetKey) => get(&command.args, store, now),
        Some(CommandKind::SetKey) => set(command, store, metadata, now),
        Some(CommandKind::Info) => Ok(info(&command.args, metadata)),
        Some(CommandKind::Replconf) => Ok(replconf()),
        Some(CommandKind::Psync) => Ok(psync(metadata)),
        None => Err(CommandError::CommandNotFound(command.cmd.clone())),
    }
}

/// The bytes that report `error` to the client.
pub fn error_reply(error: &CommandError) -> (reply: Vec<u8>)
    ensures
        reply@ == error_reply_bytes(error@),
{
    match error {
        CommandError::StorageError(_) => encode_null_bulk(),
        _ => encode_simple_string(error.to_string().as_str()),
    }
}

} // verus!
