//! What holds of the commands taken together: a later write wins, a time to
//! live ends a value at its instant, and the replication section names the
//! role once.
use vstd::prelude::*;
use vstd::utf8::{encode_utf8, encode_utf8_decode_utf8, is_ascii_chars_encode_utf8};
use crate::cli::Replicaof;
use crate::commands::{command_effect, command_kind, is_word, reply_bytes, CommandKind};
use crate::connection::{request_actions, ActionView};
use crate::numbers::is_digit;
use crate::parser::{lemma_digit_run_is, scan_command, CommandView};
use crate::roundtrip::lemma_decimal_denotes;
use crate::server::{master_replid, role_for, MetadataView, Role};
use crate::server_info::{info_payload, offset_field, replid_field, role_field, FIELD_SEPARATOR};
use crate::storage::{duration_millis, EntryView};
use crate::wire::{
    begins_with, bulk_bytes, bulk_string, crlf, decimal, null_bulk, simple_string, CR,
};

verus! {

/// Whether `command` is a `SET` of `key` that names a value.
pub open spec fn writes_key(command: CommandView, key: Seq<char>) -> bool {
    &&& command_kind(command.name) == Some(CommandKind::SetKey)
    &&& command.args.len() >= 2
    &&& command.args[0] == key
}

/// Whether `command` is a `GET` of `key`.
pub open spec fn reads_key(command: CommandView, key: Seq<char>) -> bool {
    &&& command_kind(command.name) == Some(CommandKind::GetKey)
    &&& command.args.len() >= 1
    &&& command.args[0] == key
}

/// Whether `field` holds no field separator.
pub open spec fn unbroken(field: Seq<u8>) -> bool {
    forall|i: int| 0 <= i < field.len() ==> #[trigger] field[i] != FIELD_SEPARATOR
}

/// Two byte sequences with the same bulk string are the same.
pub proof fn lemma_bulk_bytes_distinguishes(a: Seq<u8>, b: Seq<u8>)
    requires
        bulk_bytes(a) == bulk_bytes(b),
    ensures
        a == b,
{
    let da = decimal(a.len());
    let db = decimal(b.len());
    let tail_a = da + crlf() + a + crlf();
    let tail_b = db + crlf() + b + crlf();
    assert(bulk_bytes(a).skip(1) =~= tail_a);
    assert(bulk_bytes(b).skip(1) =~= tail_b);
    lemma_decimal_denotes(a.len());
    lemma_decimal_denotes(b.len());
    assert forall|j: int| 0 <= j < da.len() implies is_digit(#[trigger] tail_a[j]) by {
        assert(tail_a[j] == da[j]);
    }
    assert(tail_a[da.len() as int] == CR);
    lemma_digit_run_is(tail_a, da.len());
    assert forall|j: int| 0 <= j < db.len() implies is_digit(#[trigger] tail_b[j]) by {
        assert(tail_b[j] == db[j]);
    }
    assert(tail_b[db.len() as int] == CR);
    lemma_digit_run_is(tail_b, db.len());
    assert(tail_a.take(da.len() as int) =~= da);
    assert(tail_b.take(db.len() as int) =~= db);
    assert(a.len() == b.len());
    assert(tail_a.subrange(da.len() as int + 2, da.len() as int + 2 + a.len() as int) =~= a);
    assert(tail_b.subrange(db.len() as int + 2, db.len() as int + 2 + b.len() as int) =~= b);
}

/// Two texts with the same bulk string are the same, and no text has the
/// null bulk string for its bulk string.
pub proof fn lemma_bulk_string_distinguishes(a: Seq<char>, b: Seq<char>)
    ensures
        bulk_string(a) == bulk_string(b) ==> a == b,
        bulk_string(a) != null_bulk(),
{
    if bulk_string(a) == bulk_string(b) {
        lemma_bulk_bytes_distinguishes(encode_utf8(a), encode_utf8(b));
        encode_utf8_decode_utf8(a);
        encode_utf8_decode_utf8(b);
    }
    lemma_decimal_denotes(encode_utf8(a).len());
    let digits = decimal(encode_utf8(a).len());
    assert(bulk_string(a)[1] == digits[0]);
    assert(is_digit(digits[0]));
    assert(null_bulk()[1] == 45);
}

/// After two successive writes of one key, a read of that key gives the
/// second value or a miss, and never the first value.
///
/// `first` and `second` are `SET` commands of `key`, carried out at the
/// instants `t1` and `t2`, of which the second is accepted; `read` is a
/// `GET` of `key` carried out at `t3`. The bytes sent for the read are the
/// bulk string of the second value, or the null bulk string; they are the
/// bulk string of the first value only if the two values are the same.
pub proof fn theorem_later_write_wins(
    first: CommandView,
    second: CommandView,
    read: CommandView,
    key: Seq<char>,
    store: Map<Seq<char>, EntryView>,
    metadata: MetadataView,
    t1: u64,
    t2: u64,
    t3: u64,
)
    requires
        writes_key(first, key),
        writes_key(second, key),
        reads_key(read, key),
        command_effect(
            second,
            command_effect(first, store, metadata, t1).store,
            metadata,
            t2,
        ).result is Ok,
    ensures
        ({
            let after_first = command_effect(first, store, metadata, t1).store;
            let after_second = command_effect(second, after_first, metadata, t2).store;
            let answer = reply_bytes(command_effect(read, after_second, metadata, t3).result);
            &&& answer == bulk_string(second.args[1]) || answer == null_bulk()
            &&& first.args[1] != second.args[1] ==> answer != bulk_string(first.args[1])
        }),
{
    lemma_bulk_string_distinguishes(first.args[1], second.args[1]);
}

/// A value written with a time to live is read until that time has passed,
/// and is a miss from then on.
///
/// `write` is `SET <key> <value> PX <d>`, carried out at the instant
/// `t_set`; `read` is a `GET` of the key carried out at the instant `t`. The
/// bytes sent for the read are the bulk string of the value if `t` is at
/// most `t_set + d`, and the null bulk string if `t` is later.
pub proof fn theorem_value_lives_for_its_ttl(
    write: CommandView,
    read: CommandView,
    key: Seq<char>,
    store: Map<Seq<char>, EntryView>,
    metadata: MetadataView,
    t_set: u64,
    t: u64,
    d: nat,
)
    requires
        writes_key(write, key),
        write.args.len() >= 4,
        is_word(write.args[2], "px"@),
        duration_millis(write.args[3]) == Some(d),
        reads_key(read, key),
    ensures
        ({
            let after_write = command_effect(write, store, metadata, t_set).store;
            let answer = reply_bytes(command_effect(read, after_write, metadata, t).result);
            &&& t <= t_set + d ==> answer == bulk_string(write.args[1])
            &&& t > t_set + d ==> answer == null_bulk()
        }),
{
}

/// A write that a master accepts is handed to the replicas as it was
/// received, once its reply is written.
///
/// When the bytes read begin with a `SET` that the server accepts, what is
/// done for it on a master is to write `+OK` and then to publish exactly the
/// bytes that the request occupies; on a replica nothing is published.
pub proof fn theorem_accepted_write_is_published_verbatim(
    pending: Seq<u8>,
    store: Map<Seq<char>, EntryView>,
    metadata: MetadataView,
    now: u64,
)
    requires
        scan_command(pending) is Done,
        command_kind(scan_command(pending)->value.name) == Some(CommandKind::SetKey),
        command_effect(scan_command(pending)->value, store, metadata, now).result is Ok,
    ensures
        ({
            let command = scan_command(pending)->value;
            let used = scan_command(pending)->used;
            let result = command_effect(command, store, metadata, now).result;
            let reply = ActionView::Write(simple_string("OK"@));
            &&& metadata.role == Role::Master ==> request_actions(result, false) == seq![
                reply,
                ActionView::Publish(pending.take(used as int)),
            ]
            &&& metadata.role == Role::Replica ==> request_actions(result, false) == seq![reply]
        }),
{
    let command = scan_command(pending)->value;
    let result = command_effect(command, store, metadata, now).result;
    let reply = ActionView::Write(simple_string("OK"@));
    if metadata.role == Role::Master {
        assert(request_actions(result, false) =~= seq![
            reply,
            ActionView::Publish(command.raw),
        ]);
    } else {
        assert(request_actions(result, false) =~= seq![reply]);
    }
}

/// The replication section names the role once, and the role it names is
/// `master` exactly when no master to follow was configured.
///
/// For the record of a server launched with `replicaof`: the section
/// consists of three fields joined by single spaces, none of which holds a
/// space; only the last begins with `role:`; and it is `role:master` if and
/// only if `replicaof` is absent.
pub proof fn theorem_info_names_the_role_once(metadata: MetadataView, replicaof: Option<Replicaof>)
    requires
        metadata.role == role_for(replicaof),
        metadata.master_replid == master_replid(),
    ensures
        info_payload(metadata) == replid_field(metadata) + seq![FIELD_SEPARATOR] + offset_field(
            metadata,
        ) + seq![FIELD_SEPARATOR] + role_field(metadata),
        unbroken(replid_field(metadata)),
        unbroken(offset_field(metadata)),
        unbroken(role_field(metadata)),
        !begins_with(replid_field(metadata), encode_utf8("role:"@)),
        !begins_with(offset_field(metadata), encode_utf8("role:"@)),
        begins_with(role_field(metadata), encode_utf8("role:"@)),
        role_field(metadata) == encode_utf8("role:"@) + encode_utf8("master"@) <==> replicaof
            is None,
{
    reveal_strlit("role:");
    reveal_strlit("master");
    reveal_strlit("role:master");
    reveal_strlit("role:slave");
    reveal_strlit("master_replid:");
    reveal_strlit("master_repl_offset:");
    reveal_strlit("8371b4fb1155b71f4a04d3e1bc3e18c4a990aeeb");
    let marker = encode_utf8("role:"@);
    is_ascii_chars_encode_utf8("role:"@);
    is_ascii_chars_encode_utf8("master"@);
    is_ascii_chars_encode_utf8("role:master"@);
    is_ascii_chars_encode_utf8("role:slave"@);
    is_ascii_chars_encode_utf8("master_replid:"@);
    is_ascii_chars_encode_utf8("master_repl_offset:"@);
    is_ascii_chars_encode_utf8(master_replid());
    // Both other fields begin with `m`, the marker with `r`.
    assert(marker.len() == 5 && marker[0] == 114);
    let id = replid_field(metadata);
    assert(id[0] == 109);
    assert(id.take(5)[0] == id[0]);
    let offset = offset_field(metadata);
    assert(offset[0] == 109);
    assert(offset.take(5)[0] == offset[0]);
    lemma_decimal_denotes(metadata.master_repl_offset as nat);
    let digits = decimal(metadata.master_repl_offset as nat);
    assert forall|i: int| 0 <= i < offset.len() implies #[trigger] offset[i] != FIELD_SEPARATOR by {
        if i >= 19 {
            assert(offset[i] == digits[i - 19]);
            assert(is_digit(digits[i - 19]));
        }
    }
    assert forall|i: int| 0 <= i < id.len() implies #[trigger] id[i] != FIELD_SEPARATOR by {
        if i >= 14 {
            assert(id[i] == encode_utf8(master_replid())[i - 14]);
            assert(id[i] == master_replid()[i - 14] as u8);
        }
    }
    let role = role_field(metadata);
    assert(encode_utf8("role:"@) + encode_utf8("master"@) =~= encode_utf8("role:master"@));
    assert(encode_utf8("role:slave"@) != encode_utf8("role:master"@)) by {
        assert(encode_utf8("role:slave"@)[5] == 115);
        assert(encode_utf8("role:master"@)[5] == 109);
    }
    assert(role.take(5) =~= marker);
}

} // verus!
