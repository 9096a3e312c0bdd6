//! One client connection: the bytes it has sent, the requests they hold, and
//! what the server does for each.
//!
//! A [`Connection`] does no I/O. The caller hands it what was read off the
//! socket and gets back, in order, what to write and what to publish.
use vstd::prelude::*;
use vstd::slice::slice_subrange;
use crate::commands::{
    command_effect, error_reply, reply_bytes, run_command, CommandErrorView, OutcomeView,
};
use crate::parser::{decode, scan_command, Command, Decoded, Scan};
use crate::roundtrip::{theorem_decoded_is_encoded, theorem_later_bytes_do_not_matter};
use crate::server::{MetadataView, ServerMetadata};
use crate::storage::{EntryView, Store};
use crate::wire::push_bytes;

verus! {

/// Where a connection stands.
#[derive(Debug, Clone, Copy, PartialEq, Eq, Structural)]
pub enum ConnectionState {
    /// Requests are read and answered.
    Serving,
    /// The peer is a replica: the connection carries what is published and
    /// reads no more requests.
    ReplicationLink,
    /// The connection is to be closed.
    Closed,
}

/// One thing for the caller to do, in the order given.
#[derive(Debug)]
pub enum Action {
    /// Write these bytes to the peer.
    Write(Vec<u8>),
    /// Publish this frame to the replicas.
    Publish(Vec<u8>),
    /// Subscribe the connection to what is published.
    Subscribe,
    /// Close the connection.
    Close,
}

/// The mathematical content of an [`Action`].
pub enum ActionView {
    Write(Seq<u8>),
    Publish(Seq<u8>),
    Subscribe,
    Close,
}

impl View for Action {
    type V = ActionView;

    open spec fn view(&self) -> ActionView {
        match self {
            Action::Write(bytes) => ActionView::Write(bytes@),
            Action::Publish(frame) => ActionView::Publish(frame@),
            Action::Subscribe => ActionView::Subscribe,
            Action::Close => ActionView::Close,
        }
    }
}

/// The state of one connection.
pub struct Connection {
    pending: Vec<u8>,
    state: ConnectionState,
    silent: bool,
}

/// The mathematical content of a [`Connection`].
pub struct ConnectionView {
    /// The bytes received that belong to no request carried out so far.
    pub pending: Seq<u8>,
    /// Where the connection stands.
    pub state: ConnectionState,
    /// Whether replies are held back: set on the link from a replica to its
    /// master, whose commands are applied without an answer.
    pub silent: bool,
}

/// What carrying out the requests in a buffer leads to.
pub struct Progress {
    /// What the caller is to do, in order.
    pub actions: Seq<ActionView>,
    /// The bytes that are left for the next read.
    pub pending: Seq<u8>,
    /// Where the connection stands afterwards.
    pub state: ConnectionState,
    /// The store afterwards.
    pub store: Map<Seq<char>, EntryView>,
}

/// The content of a list of actions.
pub open spec fn actions_view(actions: Seq<Action>) -> Seq<ActionView> {
    actions.map_values(|action: Action| action@)
}

/// What the caller is to do for the result of one request: write the reply,
/// unless replies are held back; then publish what the command hands to the
/// replicas; then subscribe, if the command asks for it.
pub open spec fn request_actions(
    result: Result<OutcomeView, CommandErrorView>,
    silent: bool,
) -> Seq<ActionView> {
    let write = if silent {
        Seq::<ActionView>::empty()
    } else {
        seq![ActionView::Write(reply_bytes(result))]
    };
    match result {
        Ok(outcome) => {
            let publish = match outcome.propagate {
                Some(frame) => seq![ActionView::Publish(frame)],
                None => Seq::<ActionView>::empty(),
            };
            let subscribe = if outcome.subscribe {
                seq![ActionView::Subscribe]
            } else {
                Seq::<ActionView>::empty()
            };
            write + publish + subscribe
        },
        Err(_) => write,
    }
}

/// Whether a result turns the connection into a replication link.
pub open spec fn subscribes(result: Result<OutcomeView, CommandErrorView>) -> bool {
    result matches Ok(outcome) && outcome.subscribe
}

/// Puts `actions` in front of what a later stretch of work leads to.
pub open spec fn progress_after(actions: Seq<ActionView>, later: Progress) -> Progress {
    Progress { actions: actions + later.actions, ..later }
}

/// Carries out the requests at the front of `pending`, one after the other,
/// at the instant `now`.
///
/// Work stops at the first incomplete request, whose bytes stay pending; at
/// a malformed one, which closes the connection; and after a request that
/// turns the connection into a replication link. In the last two cases no
/// bytes stay pending.
///
/// The definition is opaque: [`lemma_drain_stops`] and
/// [`theorem_requests_are_served_in_order`] say what it amounts to.
#[verifier::opaque]
pub open spec fn drain(
    pending: Seq<u8>,
    silent: bool,
    store: Map<Seq<char>, EntryView>,
    metadata: MetadataView,
    now: u64,
) -> Progress
    decreases pending.len(),
{
    match scan_command(pending) {
        Scan::Incomplete => Progress {
            actions: Seq::empty(),
            pending,
            state: ConnectionState::Serving,
            store,
        },
        Scan::Malformed => Progress {
            actions: seq![ActionView::Close],
            pending: Seq::empty(),
            state: ConnectionState::Closed,
            store,
        },
        Scan::Done { value: command, used } => {
            let effect = command_effect(command, store, metadata, now);
            let actions = request_actions(effect.result, silent);
            if subscribes(effect.result) {
                Progress {
                    actions,
                    pending: Seq::empty(),
                    state: ConnectionState::ReplicationLink,
                    store: effect.store,
                }
            } else if 0 < used <= pending.len() {
                progress_after(
                    actions,
                    drain(pending.skip(used as int), silent, effect.store, metadata, now),
                )
            } else {
                // A request occupies at least one byte and no more than
                // there are, so this case does not arise.
                Progress {
                    actions,
                    pending: Seq::empty(),
                    state: ConnectionState::Closed,
                    store: effect.store,
                }
            }
        },
    }
}

/// Where work stops: at an incomplete request, whose bytes stay pending; at
/// a malformed one, which closes the connection; and after a request that
/// turns the connection into a replication link.
pub proof fn lemma_drain_stops(
    pending: Seq<u8>,
    silent: bool,
    store: Map<Seq<char>, EntryView>,
    metadata: MetadataView,
    now: u64,
)
    ensures
        scan_command(pending) is Incomplete ==> drain(pending, silent, store, metadata, now) == (
        Progress { actions: Seq::empty(), pending, state: ConnectionState::Serving, store }),
        scan_command(pending) is Malformed ==> drain(pending, silent, store, metadata, now) == (
        Progress {
            actions: seq![ActionView::Close],
            pending: Seq::empty(),
            state: ConnectionState::Closed,
            store,
        }),
        scan_command(pending) is Done && subscribes(
            command_effect(scan_command(pending)->value, store, metadata, now).result,
        ) ==> drain(pending, silent, store, metadata, now).state
            == ConnectionState::ReplicationLink,
{
    reveal(drain);
}

/// Requests are served in the order in which they arrive.
///
/// When the pending bytes begin with a complete request that does not turn
/// the connection into a replication link, what is done is what that
/// request asks for, followed by what the bytes after it lead to, against
/// the store that the request leaves.
pub proof fn theorem_requests_are_served_in_order(
    pending: Seq<u8>,
    silent: bool,
    store: Map<Seq<char>, EntryView>,
    metadata: MetadataView,
    now: u64,
)
    requires
        scan_command(pending) is Done,
        !subscribes(command_effect(scan_command(pending)->value, store, metadata, now).result),
    ensures
        ({
            let command = scan_command(pending)->value;
            let used = scan_command(pending)->used;
            let effect = command_effect(command, store, metadata, now);
            &&& 0 < used <= pending.len()
            &&& drain(pending, silent, store, metadata, now) == progress_after(
                request_actions(effect.result, silent),
                drain(pending.skip(used as int), silent, effect.store, metadata, now),
            )
        }),
{
    reveal(drain);
    theorem_decoded_is_encoded(pending);
}

/// What follows a complete request leads to the same whether more bytes
/// come at once or later, if that holds of the bytes after the request.
proof fn lemma_split_after_request(
    pending: Seq<u8>,
    more: Seq<u8>,
    silent: bool,
    store: Map<Seq<char>, EntryView>,
    metadata: MetadataView,
    now: u64,
)
    requires
        scan_command(pending) is Done,
        !subscribes(command_effect(scan_command(pending)->value, store, metadata, now).result),
        ({
            let used = scan_command(pending)->used;
            let after = command_effect(scan_command(pending)->value, store, metadata, now).store;
            let later = drain(pending.skip(used as int), silent, after, metadata, now);
            drain(pending.skip(used as int) + more, silent, after, metadata, now)
                == progress_after(
                later.actions,
                drain(later.pending + more, silent, later.store, metadata, now),
            )
        }),
    ensures
        ({
            let first = drain(pending, silent, store, metadata, now);
            drain(pending + more, silent, store, metadata, now) == progress_after(
                first.actions,
                drain(first.pending + more, silent, first.store, metadata, now),
            )
        }),
{
    let used = scan_command(pending)->used;
    let effect = command_effect(scan_command(pending)->value, store, metadata, now);
    let actions = request_actions(effect.result, silent);
    let rest = pending.skip(used as int);
    theorem_requests_are_served_in_order(pending, silent, store, metadata, now);
    theorem_later_bytes_do_not_matter(pending, more);
    theorem_requests_are_served_in_order(pending + more, silent, store, metadata, now);
    assert((pending + more).skip(used as int) =~= rest + more);
    let later = drain(rest, silent, effect.store, metadata, now);
    let last = drain(later.pending + more, silent, later.store, metadata, now);
    assert(actions + (later.actions + last.actions) =~= (actions + later.actions) + last.actions);
}

/// Reading a stream in pieces leads to the same as reading it at once.
///
/// If carrying out the requests in `pending` leaves the connection serving,
/// then carrying out those in `pending + more` does the same first, and
/// goes on with the bytes that were left and `more`.
pub proof fn theorem_reads_may_be_split(
    pending: Seq<u8>,
    more: Seq<u8>,
    silent: bool,
    store: Map<Seq<char>, EntryView>,
    metadata: MetadataView,
    now: u64,
)
    requires
        drain(pending, silent, store, metadata, now).state == ConnectionState::Serving,
    ensures
        ({
            let first = drain(pending, silent, store, metadata, now);
            drain(pending + more, silent, store, metadata, now) == progress_after(
                first.actions,
                drain(first.pending + more, silent, first.store, metadata, now),
            )
        }),
    decreases pending.len(),
{
    lemma_drain_stops(pending, silent, store, metadata, now);
    if scan_command(pending) is Incomplete {
        let whole = drain(pending + more, silent, store, metadata, now);
        assert(Seq::<ActionView>::empty() + whole.actions =~= whole.actions);
    } else if scan_command(pending) is Done {
        let used = scan_command(pending)->used;
        let after = command_effect(scan_command(pending)->value, store, metadata, now).store;
        theorem_requests_are_served_in_order(pending, silent, store, metadata, now);
        theorem_reads_may_be_split(pending.skip(used as int), more, silent, after, metadata, now);
        lemma_split_after_request(pending, more, silent, store, metadata, now);
    }
}

/// What a read of `bytes` leads to on a connection in the state
/// `connection`.
///
/// A connection that no longer serves ignores what it reads. On one that
/// serves, a read of no bytes is the end of the stream and closes it; any
/// other read is added to the pending bytes, and the requests they hold are
/// carried out.
pub open spec fn receive_progress(
    connection: ConnectionView,
    bytes: Seq<u8>,
    store: Map<Seq<char>, EntryView>,
    metadata: MetadataView,
    now: u64,
) -> Progress {
    if connection.state != ConnectionState::Serving {
        Progress {
            actions: Seq::empty(),
            pending: connection.pending,
            state: connection.state,
            store,
        }
    } else if bytes.len() == 0 {
        Progress {
            actions: seq![ActionView::Close],
            pending: Seq::empty(),
            state: ConnectionState::Closed,
            store,
        }
    } else {
        drain(connection.pending + bytes, connection.silent, store, metadata, now)
    }
}

/// Carries out one request and appends to `actions` what the caller is to
/// do for it. Returns whether the connection becomes a replication link.
fn carry_out(
    command: &Command,
    silent: bool,
    store: &mut Store,
    metadata: &ServerMetadata,
    now: u64,
    actions: &mut Vec<Action>,
) -> (subscribe: bool)
    ensures
        ({
            let effect = command_effect(command@, old(store)@, metadata@, now);
            &&& actions_view(final(actions)@) == actions_view(old(actions)@) + request_actions(
                effect.result,
                silent,
            )
            &&& final(store)@ == effect.store
            &&& subscribe == subscribes(effect.result)
        }),
{
    let ghost done = actions_view(actions@);
    match run_command(command, store, metadata, now) {
        Ok(outcome) => {
            let ghost seen = outcome@;
            let ghost written = if silent {
                Seq::<ActionView>::empty()
            } else {
                seq![ActionView::Write(seen.reply)]
            };
            if !silent {
                actions.push(Action::Write(outcome.reply));
            }
            assert(actions_view(actions@) =~= done + written);
            let ghost published = match seen.propagate {
                Some(frame) => seq![ActionView::Publish(frame)],
                None => Seq::<ActionView>::empty(),
            };
            match outcome.propagate {
                Some(frame) => {
                    actions.push(Action::Publish(frame));
                },
                None => {},
            }
            assert(actions_view(actions@) =~= done + written + published);
            if outcome.subscribe {
                actions.push(Action::Subscribe);
                assert(actions_view(actions@) =~= done + written + published + seq![
                    ActionView::Subscribe,
                ]);
                true
            } else {
                assert(done + written + published + Seq::<ActionView>::empty() =~= done + written
                    + published);
                false
            }
        },
        Err(error) => {
            if !silent {
                actions.push(Action::Write(error_reply(&error)));
            }
            assert(actions_view(actions@) =~= done + request_actions(Err(error@), silent));
            false
        },
    }
}

/// Carries out the request at the front of `window`, if it holds one.
///
/// Returns what the caller is to do for it, the number of bytes the request
/// occupies, and where the connection stands afterwards. No bytes are
/// consumed when the window ends inside a request; a connection that stops
/// serving consumes nothing more.
fn advance(
    window: &[u8],
    silent: bool,
    store: &mut Store,
    metadata: &ServerMetadata,
    now: u64,
) -> (step: (Vec<Action>, usize, ConnectionState))
    ensures
        ({
            let whole = drain(window@, silent, old(store)@, metadata@, now);
            let added = actions_view(step.0@);
            let consumed = step.1;
            let state = step.2;
            if state == ConnectionState::Serving && consumed > 0 {
                &&& consumed <= window.len()
                &&& whole == progress_after(
                    added,
                    drain(window@.skip(consumed as int), silent, final(store)@, metadata@, now),
                )
            } else {
                &&& consumed == 0
                &&& whole == (Progress {
                    actions: added,
                    pending: if state == ConnectionState::Serving {
                        window@
                    } else {
                        Seq::empty()
                    },
                    state,
                    store: final(store)@,
                })
            }
        }),
{
    let mut actions: Vec<Action> = Vec::new();
    assert(actions_view(actions@) =~= Seq::<ActionView>::empty());
    proof {
        reveal(drain);
    }
    match decode(window) {
        Decoded::Incomplete => (actions, 0, ConnectionState::Serving),
        Decoded::Malformed => {
            actions.push(Action::Close);
            assert(actions_view(actions@) =~= seq![ActionView::Close]);
            (actions, 0, ConnectionState::Closed)
        },
        Decoded::Frame { command, consumed } => {
            let ghost effect = command_effect(command@, store@, metadata@, now);
            let subscribe = carry_out(&command, silent, store, metadata, now, &mut actions);
            assert(actions_view(actions@) =~= request_actions(effect.result, silent));
            if subscribe {
                (actions, 0, ConnectionState::ReplicationLink)
            } else {
                (actions, consumed, ConnectionState::Serving)
            }
        },
    }
}

impl View for Connection {
    type V = ConnectionView;

    closed spec fn view(&self) -> ConnectionView {
        ConnectionView { pending: self.pending@, state: self.state, silent: self.silent }
    }
}

impl Connection {
    /// A connection on which nothing has been read. With `silent` set,
    /// commands are applied and no reply is written.
    pub fn new(silent: bool) -> (connection: Self)
        ensures
            connection@ == (ConnectionView {
                pending: Seq::empty(),
                state: ConnectionState::Serving,
                silent,
            }),
    {
        Connection { pending: Vec::new(), state: ConnectionState::Serving, silent }
    }

    /// Where the connection stands.
    pub fn state(&self) -> (state: ConnectionState)
        ensures
            state == self@.state,
    {
        self.state
    }

    /// The number of bytes received that belong to no request carried out
    /// so far.
    pub fn pending_len(&self) -> (len: usize)
        ensures
            len == self@.pending.len(),
    {
        self.pending.len()
    }

    /// Takes in what was read off the socket and carries out the requests
    /// that are now complete, against `store`, at the instant `now`.
    /// Returns what the caller is to do, in order.
    pub fn receive(
        &mut self,
        bytes: &[u8],
        store: &mut Store,
        metadata: &ServerMetadata,
        now: u64,
    ) -> (actions: Vec<Action>)
        ensures
            ({
                let progress = receive_progress(old(self)@, bytes@, old(store)@, metadata@, now);
                &&& actions_view(actions@) == progress.actions
                &&& final(self)@ == (ConnectionView {
                    pending: progress.pending,
                    state: progress.state,
                    silent: old(self)@.silent,
                })
                &&& final(store)@ == progress.store
            }),
    {
        let mut actions: Vec<Action> = Vec::new();
        assert(actions_view(actions@) =~= Seq::<ActionView>::empty());
        if self.state != ConnectionState::Serving {
            return actions;
        }
        if bytes.len() == 0 {
            actions.push(Action::Close);
            assert(actions_view(actions@) =~= seq![ActionView::Close]);
            self.state = ConnectionState::Closed;
            self.pending = Vec::new();
            return actions;
        }
        push_bytes(&mut self.pending, bytes);
        let ghost total = self.pending@;
        let ghost whole = drain(total, self.silent, store@, metadata@, now);
        let silent = self.silent;
        let mut at: usize = 0;
        let mut running = true;
        assert(total.skip(0) =~= total);
        assert(progress_after(actions_view(actions@), whole) == whole) by {
            assert(Seq::<ActionView>::empty() + whole.actions =~= whole.actions);
        }
        while running
            invariant
                at <= self.pending.len(),
                self.pending@ == total,
                self.silent == silent,
                running ==> self.state == ConnectionState::Serving,
                running ==> whole == progress_after(
                    actions_view(actions@),
                    drain(total.skip(at as int), silent, store@, metadata@, now),
                ),
                !running ==> whole == (Progress {
                    actions: actions_view(actions@),
                    pending: total.skip(at as int),
                    state: self.state,
                    store: store@,
                }),
            decreases
                    self.pending.len() - at + if running {
                        1int
                    } else {
                        0int
                    },
        {
            let ghost rest = total.skip(at as int);
            let ghost done = actions_view(actions@);
            let window = slice_subrange(self.pending.as_slice(), at, self.pending.len());
            assert(window@ =~= rest);
            let (mut added, consumed, state) = advance(window, silent, store, metadata, now);
            let ghost step = actions_view(added@);
            actions.append(&mut added);
            assert(actions_view(actions@) =~= done + step);
            match state {
                ConnectionState::Serving => {
                    if consumed == 0 {
                        running = false;
                    } else {
                        proof {
                            let later = drain(
                                rest.skip(consumed as int),
                                silent,
                                store@,
                                metadata@,
                                now,
                            );
                            assert(rest.skip(consumed as int) =~= total.skip(at + consumed));
                            assert(done + (step + later.actions) =~= (done + step)
                                + later.actions);
                        }
                        at = at + consumed;
                    }
                },
                _ => {
                    self.state = state;
                    at = self.pending.len();
                    assert(total.skip(at as int) =~= Seq::<u8>::empty());
                    running = false;
                },
            }
        }
        let rest = self.pending.split_off(at);
        self.pending = rest;
        assert(self.pending@ =~= total.skip(at as int));
        actions
    }
}

} // verus!
