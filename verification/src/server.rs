//! The process-wide record of what this server is: its role and its
//! replication identity.
use std::sync::Arc;
use tokio::sync::broadcast::Sender;
use vstd::prelude::*;
use vstd::string::StringExecFns;
use crate::cli::Replicaof;

verus! {

/// The number of published frames that the replication channel holds for a
/// replica that has fallen behind; one that falls further behind is dropped.
pub const BROADCAST_SLOTS: usize = 16;

/// The sending half of tokio's broadcast channel, `tokio::sync::broadcast::Sender`.
/// Nothing is known of what is inside it.
#[verifier::external_type_specification]
#[verifier::external_body]
#[verifier::reject_recursive_types(T)]
pub struct ExSender<T>(Sender<T>);

/// Makes a broadcast channel of `slots` slots with
/// `tokio::sync::broadcast::channel` and gives its sending half; the
/// receiving half that comes with it is dropped. The call panics for no
/// slots and for more than `usize::MAX / 2`, which `requires` leaves out.
/// Nothing is claimed of the result.
#[verifier::external_body]
fn open_sink(slots: usize) -> (sink: Sender<Arc<Vec<u8>>>)
    requires
        0 < slots <= usize::MAX / 2,
{
    tokio::sync::broadcast::channel(slots).0
}

/// The role of a server in a replication pair.
#[derive(Debug, Clone, Copy, PartialEq, Eq, Structural)]
pub enum Role {
    /// Accepts writes and propagates them.
    Master,
    /// Follows a master.
    Replica,
}

/// What a server knows of itself. It is made once, at boot.
#[derive(Debug)]
pub struct ServerMetadata {
    /// Master or replica.
    pub role: Role,
    /// The replication id: 40 hexadecimal characters.
    pub master_replid: String,
    /// The replication offset.
    pub master_repl_offset: u8,
    /// The publishing end of the channel that carries writes to the
    /// replicas.
    pub broadcast: Sender<Arc<Vec<u8>>>,
    /// The port the server listens on.
    pub port: u16,
    /// The host the server listens on.
    pub host: String,
}

/// The mathematical content of a [`ServerMetadata`]: all of it but the
/// channel.
pub struct MetadataView {
    pub role: Role,
    pub master_replid: Seq<char>,
    pub master_repl_offset: u8,
    pub port: u16,
    pub host: Seq<char>,
}

impl View for ServerMetadata {
    type V = MetadataView;

    open spec fn view(&self) -> MetadataView {
        MetadataView {
            role: self.role,
            master_replid: self.master_replid@,
            master_repl_offset: self.master_repl_offset,
            port: self.port,
            host: self.host@,
        }
    }
}

/// The replication id that every boot uses.
pub open spec fn master_replid() -> Seq<char> {
    "8371b4fb1155b71f4a04d3e1bc3e18c4a990aeeb"@
}

/// The role that a launch configuration gives: replica exactly when a master
/// to follow is configured.
pub open spec fn role_for(replicaof: Option<Replicaof>) -> Role {
    if replicaof is Some {
        Role::Replica
    } else {
        Role::Master
    }
}

/// The replication id of this server.
pub fn get_master_replid() -> (id: String)
    ensures
        id@ == master_replid(),
{
    String::from_str("8371b4fb1155b71f4a04d3e1bc3e18c4a990aeeb")
}

/// The replication offset of a server that has just booted.
pub fn get_master_repl_offset() -> (offset: u8)
    ensures
        offset == 0,
{
    0
}

impl ServerMetadata {
    /// The record of a server that listens on `host:port` and follows
    /// `replicaof`, if there is one, with a replication channel that no
    /// replica has subscribed to yet.
    pub fn new(host: &str, port: u16, replicaof: &Option<Replicaof>) -> (metadata: Self)
        ensures
            metadata@ == (MetadataView {
                role: role_for(*replicaof),
                master_replid: master_replid(),
                master_repl_offset: 0,
                port,
                host: host@,
            }),
    {
        ServerMetadata {
            role: match replicaof {
                Some(_) => Role::Replica,
                None => Role::Master,
            },
            master_replid: get_master_replid(),
            master_repl_offset: get_master_repl_offset(),
            broadcast: open_sink(BROADCAST_SLOTS),
            port,
            host: String::from_str(host),
        }
    }
}

} // verus!
