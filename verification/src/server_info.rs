//! The reply to `INFO replication`.
use vstd::prelude::*;
use vstd::utf8::encode_utf8;
use crate::server::{MetadataView, Role, ServerMetadata};
use crate::wire::{bulk_bytes, decimal, encode_bulk_bytes, push_bytes, push_decimal};

verus! {

/// The byte that stands between two fields.
pub const FIELD_SEPARATOR: u8 = 32;

/// The field that names the replication id.
pub open spec fn replid_field(metadata: MetadataView) -> Seq<u8> {
    encode_utf8("master_replid:"@) + encode_utf8(metadata.master_replid)
}

/// The field that names the replication offset.
pub open spec fn offset_field(metadata: MetadataView) -> Seq<u8> {
    encode_utf8("master_repl_offset:"@) + decimal(metadata.master_repl_offset as nat)
}

/// The field that names the role: `role:master` for a master and
/// `role:slave` for a replica.
pub open spec fn role_field(metadata: MetadataView) -> Seq<u8> {
    match metadata.role {
        Role::Master => encode_utf8("role:master"@),
        Role::Replica => encode_utf8("role:slave"@),
    }
}

/// The replication section: its three fields, joined by single spaces.
pub open spec fn info_payload(metadata: MetadataView) -> Seq<u8> {
    replid_field(metadata) + seq![FIELD_SEPARATOR] + offset_field(metadata) + seq![
        FIELD_SEPARATOR,
    ] + role_field(metadata)
}

/// The reply to `INFO replication`: the replication section as one bulk
/// string.
pub fn get_server_info(server_metadata: &ServerMetadata) -> (reply: Vec<u8>)
    ensures
        reply@ == bulk_bytes(info_payload(server_metadata@)),
{
    let mut payload: Vec<u8> = Vec::new();
    push_bytes(&mut payload, "master_replid:".as_bytes());
    push_bytes(&mut payload, server_metadata.master_replid.as_str().as_bytes());
    payload.push(FIELD_SEPARATOR);
    push_bytes(&mut payload, "master_repl_offset:".as_bytes());
    push_decimal(&mut payload, server_metadata.master_repl_offset as u128);
    payload.push(FIELD_SEPARATOR);
    match server_metadata.role {
        Role::Master => push_bytes(&mut payload, "role:master".as_bytes()),
        Role::Replica => push_bytes(&mut payload, "role:slave".as_bytes()),
    }
    assert(payload@ =~= info_payload(server_metadata@));
    encode_bulk_bytes(payload.as_slice())
}

} // verus!
