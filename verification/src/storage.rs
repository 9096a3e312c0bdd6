//! The key/value store: entries that may expire, and the map that owns them.
//!
//! Instants and durations are whole milliseconds: an instant counts from the
//! Unix epoch.
use std::time::{Duration, SystemTime, UNIX_EPOCH};
use vstd::hash_map::StringHashMap;
use vstd::prelude::*;
use vstd::string::StringExecFns;
use vstd::utf8::encode_utf8;
use crate::commands::{CommandError, CommandErrorView};
use crate::numbers::{parse_unsigned, parse_unsigned_spec};

verus! {

/// The kind of value an entry holds.
#[derive(Debug, Clone, Copy, PartialEq, Eq, Structural)]
pub enum DBEntryValueType {
    /// A text value.
    StringType,
    /// Reserved for lists.
    _ListType,
}

/// The value of an entry and its kind.
pub struct DBEntryValue {
    value: String,
    type_: DBEntryValueType,
}

/// When an entry was made and how long it lives.
#[derive(Debug, Clone, Copy)]
pub struct DBEntryMetadata {
    ttl: Option<u64>,
    created_at: u64,
}

/// One stored entry.
pub struct DBEntry {
    item: DBEntryValue,
    metadata: DBEntryMetadata,
}

/// The mathematical content of a [`DBEntry`].
pub struct EntryView {
    /// The stored text.
    pub value: Seq<char>,
    /// Its kind.
    pub kind: DBEntryValueType,
    /// The instant at which the entry was made.
    pub created_at: u64,
    /// The time to live, counted from `created_at`; `None` for an entry that
    /// never expires.
    pub ttl: Option<u64>,
}

/// Whether an entry is live at the instant `now`: it has no time to live, or
/// `now` is not after its creation plus its time to live.
pub open spec fn live_at(entry: EntryView, now: u64) -> bool {
    match entry.ttl {
        None => true,
        Some(ttl) => now <= entry.created_at + ttl,
    }
}

/// The time to live that the text of a `PX` argument denotes, if it is an
/// unsigned decimal number of milliseconds that fits in 64 bits.
pub open spec fn duration_millis(text: Seq<char>) -> Option<nat> {
    parse_unsigned_spec(encode_utf8(text), u64::MAX as nat)
}

/// The error for a duration that does not parse.
pub open spec fn invalid_duration(text: Seq<char>) -> CommandErrorView {
    CommandErrorView::InvalidArgument("Invalid duration provided '"@ + text + "'"@)
}

/// The error for a duration that is absent.
pub open spec fn missing_duration() -> CommandErrorView {
    CommandErrorView::InvalidArgument("Duration was not provided"@)
}

/// The error for a read of an entry that is no longer live.
pub open spec fn expired_value() -> CommandErrorView {
    CommandErrorView::StorageError("Value has expired"@)
}

/// The instant type of the system clock, `std::time::SystemTime`. Nothing is
/// known of what is inside it.
#[verifier::external_type_specification]
#[verifier::external_body]
pub struct ExSystemTime(SystemTime);

/// Reads the system clock with `SystemTime::now`. Nothing is claimed of the
/// result.
#[verifier::external_body]
fn clock_now() -> SystemTime {
    SystemTime::now()
}

/// The time from the Unix epoch to `instant`, by
/// `SystemTime::duration_since`; nothing for an instant before the epoch.
/// Nothing is claimed of the result.
#[verifier::external_body]
fn since_epoch(instant: &SystemTime) -> Option<Duration> {
    match instant.duration_since(UNIX_EPOCH) {
        Ok(elapsed) => Some(elapsed),
        Err(_) => None,
    }
}

/// The whole milliseconds in `elapsed`, by `Duration::as_millis`. Nothing is
/// claimed of the result.
#[verifier::external_body]
fn whole_millis(elapsed: &Duration) -> u128 {
    elapsed.as_millis()
}

/// The instant that the system clock shows. It is read from the clock, so
/// nothing is known of it here; how a reading becomes an instant is what
/// [`instant_from`] says.
fn unix_millis() -> u64 {
    let now = clock_now();
    let elapsed = match since_epoch(&now) {
        Some(elapsed) => Some(whole_millis(&elapsed)),
        None => None,
    };
    instant_from(elapsed)
}

/// The instant for a clock that shows `elapsed` milliseconds since the Unix
/// epoch: that number, or the last instant if it does not fit; and the
/// epoch itself for a clock set before it, which shows no such number.
pub open spec fn instant_of(elapsed: Option<u128>) -> u64 {
    match elapsed {
        Some(millis) => if millis > u64::MAX {
            u64::MAX
        } else {
            millis as u64
        },
        None => 0,
    }
}

/// The instant for a clock that shows `elapsed` milliseconds since the Unix
/// epoch, or none for a clock set before it.
pub fn instant_from(elapsed: Option<u128>) -> (instant: u64)
    ensures
        instant == instant_of(elapsed),
{
    match elapsed {
        Some(millis) => {
            if millis > u64::MAX as u128 {
                u64::MAX
            } else {
                millis as u64
            }
        },
        None => 0,
    }
}

impl View for DBEntry {
    type V = EntryView;

    closed spec fn view(&self) -> EntryView {
        EntryView {
            value: self.item.value@,
            kind: self.item.type_,
            created_at: self.metadata.created_at,
            ttl: self.metadata.ttl,
        }
    }
}

impl DBEntry {
    /// Makes an entry that holds `value`, created at the instant `now`, with
    /// no time to live.
    pub fn from_string_at(value: &str, value_type: DBEntryValueType, now: u64) -> (entry: Self)
        ensures
            entry@ == (EntryView { value: value@, kind: value_type, created_at: now, ttl: None }),
    {
        DBEntry {
            item: DBEntryValue { value: String::from_str(value), type_: value_type },
            metadata: DBEntryMetadata { created_at: now, ttl: None },
        }
    }

    /// Makes an entry that holds `value`, created at the instant the system
    /// clock shows, with no time to live.
    pub fn from_string(value: &str, value_type: DBEntryValueType) -> (entry: Self)
        ensures
            entry@.value == value@,
            entry@.kind == value_type,
            entry@.ttl is None,
    {
        DBEntry::from_string_at(value, value_type, unix_millis())
    }

    /// The stored text.
    pub fn value(&self) -> (text: &str)
        ensures
            text@ == self@.value,
    {
        self.item.value.as_str()
    }

    /// The kind of the stored value.
    pub fn value_type(&self) -> (kind: DBEntryValueType)
        ensures
            kind == self@.kind,
    {
        self.item.type_
    }

    /// The instant at which the entry was made.
    pub fn created_at(&self) -> (instant: u64)
        ensures
            instant == self@.created_at,
    {
        self.metadata.created_at
    }

    /// The time to live, if the entry has one.
    pub fn ttl(&self) -> (ttl: Option<u64>)
        ensures
            ttl == self@.ttl,
    {
        self.metadata.ttl
    }

    /// Whether the entry is live at the instant `now`.
    pub fn still_valid(&self, now: u64) -> (live: bool)
        ensures
            live == live_at(self@, now),
    {
        match self.metadata.ttl {
            None => true,
            Some(ttl) => now <= self.metadata.created_at || now - self.metadata.created_at <= ttl,
        }
    }

    /// The value as read at the instant `now`: the text if the entry is live,
    /// and an error if it has expired.
    pub fn to_string_at(&self, now: u64) -> (result: Result<String, CommandError>)
        ensures
            match result {
                Ok(text) => live_at(self@, now) && text@ == self@.value,
                Err(error) => !live_at(self@, now) && error@ == expired_value(),
            },
    {
        if self.still_valid(now) {
            Ok(self.item.value.clone())
        } else {
            Err(CommandError::StorageError(String::from_str("Value has expired")))
        }
    }

    /// The value as read at the instant the system clock shows. An entry
    /// without a time to live is always read.
    pub fn to_string(&self) -> (result: Result<String, CommandError>)
        ensures
            match result {
                Ok(text) => text@ == self@.value,
                Err(error) => self@.ttl is Some && error@ == expired_value(),
            },
    {
        self.to_string_at(unix_millis())
    }

    /// Gives the entry the time to live that `duration_str` denotes, a number
    /// of milliseconds counted from the entry's creation. An absent duration
    /// or one that is no such number leaves the entry as it was.
    pub fn set_ttl(&mut self, duration_str: Option<&String>) -> (result: Result<(), CommandError>)
        ensures
            match duration_str {
                Some(text) => match duration_millis(text@) {
                    Some(millis) => result is Ok && final(self)@ == (EntryView {
                        ttl: Some(millis as u64),
                        ..old(self)@
                    }),
                    None => {
                        &&& final(self)@ == old(self)@
                        &&& result matches Err(error)
                        &&& error@ == invalid_duration(text@)
                    },
                },
                None => {
                    &&& final(self)@ == old(self)@
                    &&& result matches Err(error)
                    &&& error@ == missing_duration()
                },
            },
    {
        match duration_str {
            Some(text) => match parse_unsigned(text.as_str().as_bytes(), u64::MAX) {
                Some(millis) => {
                    self.metadata.ttl = Some(millis);
                    Ok(())
                },
                None => Err(
                    CommandError::InvalidArgument(
                        String::from_str("Invalid duration provided '").concat(
                            text.as_str(),
                        ).concat("'"),
                    ),
                ),
            },
            None => Err(CommandError::InvalidArgument(String::from_str("Duration was not provided"))),
        }
    }
}

/// The map from keys to entries. Every key occurs once; an insertion replaces
/// what the key held.
pub struct Store {
    entries: StringHashMap<DBEntry>,
}

/// What a read of `key` at the instant `now` finds in `store`: the entry, if
/// the key holds one that is live.
pub open spec fn lookup(store: Map<Seq<char>, EntryView>, key: Seq<char>, now: u64) -> Option<
    EntryView,
> {
    if store.contains_key(key) && live_at(store[key], now) {
        Some(store[key])
    } else {
        None
    }
}

/// The store after a read of `key` at the instant `now`: without the entry of
/// `key` if that entry has expired, and unchanged otherwise.
pub open spec fn without_expired(store: Map<Seq<char>, EntryView>, key: Seq<char>, now: u64) -> Map<
    Seq<char>,
    EntryView,
> {
    if store.contains_key(key) && !live_at(store[key], now) {
        store.remove(key)
    } else {
        store
    }
}

impl View for Store {
    type V = Map<Seq<char>, EntryView>;

    closed spec fn view(&self) -> Map<Seq<char>, EntryView> {
        self.entries@.map_values(|entry: DBEntry| entry@)
    }
}

impl Store {
    /// An empty store.
    pub fn new() -> (store: Self)
        ensures
            store@ == Map::<Seq<char>, EntryView>::empty(),
    {
        let store = Store { entries: StringHashMap::new() };
        assert(store@ =~= Map::<Seq<char>, EntryView>::empty());
        store
    }

    /// The number of entries, expired ones that no read has found included.
    pub fn len(&self) -> (count: usize)
        ensures
            count == self@.len(),
    {
        assert(self@.dom() =~= self.entries@.dom());
        self.entries.len()
    }

    /// Puts `entry` under `key`, in place of whatever the key held.
    pub fn insert(&mut self, key: String, entry: DBEntry)
        ensures
            final(self)@ == old(self)@.insert(key@, entry@),
    {
        self.entries.insert(key, entry);
        assert(self@ =~= old(self)@.insert(key@, entry@));
    }

    /// The entry under `key`, if the key holds one that is live at the
    /// instant `now`.
    pub fn get(&self, key: &str, now: u64) -> (found: Option<&DBEntry>)
        ensures
            match found {
                Some(entry) => lookup(self@, key@, now) == Some(entry@),
                None => lookup(self@, key@, now) is None,
            },
    {
        match self.entries.get(key) {
            Some(entry) => {
                if entry.still_valid(now) {
                    Some(entry)
                } else {
                    None
                }
            },
            None => None,
        }
    }

    /// Drops the entry under `key` if it has expired by the instant `now`.
    pub fn evict_expired(&mut self, key: &str, now: u64)
        ensures
            final(self)@ == without_expired(old(self)@, key@, now),
    {
        let expired = match self.entries.get(key) {
            Some(entry) => !entry.still_valid(now),
            None => false,
        };
        if expired {
            self.entries.remove(key);
            assert(self@ =~= old(self)@.remove(key@));
        }
    }
}

} // verus!
