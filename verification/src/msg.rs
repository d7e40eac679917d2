//! Peer-to-peer messages and the dispatch of request/response events:
//! requests are forwarded to the upper layers, responses are routed to the
//! caller awaiting them — or surfaced as events when nobody awaits them —
//! and outbound failures are routed the same way.

use vstd::prelude::*;
use crate::address::NetworkAddress;
use crate::transport::NetworkError;

verus! {

/// A command sent to a peer; no response is awaited.
#[derive(Clone, PartialEq, Eq, Debug)]
pub enum Cmd {
    /// A replicate notice: the holder offers these record keys.
    Replicate { holder: NetworkAddress, keys: Vec<NetworkAddress> },
}

/// A query sent to a peer; a response is expected.
#[derive(Clone, Copy, PartialEq, Eq, Structural, Debug)]
pub enum Query {
    /// Ask a peer for a record it announced to hold.
    GetReplicatedRecord { requester: NetworkAddress, key: NetworkAddress },
}

/// A request on the wire.
#[derive(Clone, PartialEq, Eq, Debug)]
pub enum Request {
    Cmd(Cmd),
    Query(Query),
}

/// The response to a query.
#[derive(PartialEq, Eq, Debug)]
pub enum QueryResponse {
    /// The announced holder and the raw record bytes, or the peer's refusal.
    GetReplicatedRecord(Result<(NetworkAddress, Vec<u8>), NetworkError>),
}

/// The response to a command.
#[derive(PartialEq, Eq, Debug)]
pub enum CmdResponse {
    Replicate(Result<(), NetworkError>),
}

/// A response on the wire.
#[derive(PartialEq, Eq, Debug)]
pub enum Response {
    Query(QueryResponse),
    Cmd(CmdResponse),
}

/// A message delivered by the request/response protocol.
#[derive(Debug)]
pub enum Msg {
    Request { request_id: u64, request: Request },
    Response { request_id: u64, response: Response },
}

/// An event of the request/response protocol.
#[derive(Debug)]
pub enum MsgEvent {
    Message(Msg),
    OutboundFailure { request_id: u64, error: NetworkError },
    InboundFailure { request_id: u64, error: NetworkError },
    ResponseSent { request_id: u64 },
}

/// What the caller of the dispatcher must do with the event.
#[derive(Debug)]
pub enum MsgAction {
    /// Hand the received request to the upper layers.
    EmitRequestReceived(Request),
    /// Wake the caller awaiting this request with its response.
    ForwardResponse { request_id: u64, response: Response },
    /// Nobody awaits this response at its call site: hand it to the
    /// common response handler as an event.
    EmitResponseReceived(Response),
    /// Wake the caller awaiting this request with the failure.
    ForwardFailure { request_id: u64, error: NetworkError },
    /// Nothing to do.
    NoAction,
}

/// The requests sent and not yet answered: for each request id, whether a
/// caller awaits the response at its call site.
pub struct PendingRequests {
    pub entries: Vec<(u64, bool)>,
}

/// Whether one of the first `n` pending entries carries `id`.
pub open spec fn pending_upto(entries: Seq<(u64, bool)>, n: int, id: u64) -> bool {
    exists|i: int| 0 <= i < n && (#[trigger] entries[i]).0 == id
}

impl PendingRequests {
    /// Request ids are registered at most once.
    pub open spec fn well_formed(self) -> bool {
        forall|i: int, j: int|
            0 <= i < j < self.entries@.len() ==> (#[trigger] self.entries@[i]).0 != (
            #[trigger] self.entries@[j]).0
    }

    /// An id is pending.
    pub open spec fn spec_pending(self, id: u64) -> bool {
        pending_upto(self.entries@, self.entries@.len() as int, id)
    }

    /// The id is pending and its caller awaits (or not) the response.
    pub open spec fn spec_awaited(self, id: u64, awaited: bool) -> bool {
        exists|i: int|
            0 <= i < self.entries@.len() && (#[trigger] self.entries@[i]) == (id, awaited)
    }

    /// With unique ids, an id is awaited in at most one way.
    pub proof fn lemma_awaited_unique(self, id: u64, a1: bool, a2: bool)
        requires
            self.well_formed(),
            self.spec_awaited(id, a1),
            self.spec_awaited(id, a2),
        ensures
            a1 == a2,
    {
        let k1 = choose|i: int|
            0 <= i < self.entries@.len() && (#[trigger] self.entries@[i]) == (id, a1);
        let k2 = choose|i: int|
            0 <= i < self.entries@.len() && (#[trigger] self.entries@[i]) == (id, a2);
        if a1 != a2 {
            if k1 < k2 {
                assert((self.entries@[k1]).0 != (self.entries@[k2]).0);
            } else {
                assert((self.entries@[k2]).0 != (self.entries@[k1]).0);
            }
        }
    }

    /// An awaited id is a pending id.
    pub proof fn lemma_awaited_implies_pending(self, id: u64, awaited: bool)
        requires
            self.spec_awaited(id, awaited),
        ensures
            self.spec_pending(id),
    {
        let k = choose|i: int|
            0 <= i < self.entries@.len() && (#[trigger] self.entries@[i]) == (id, awaited);
        assert((self.entries@[k]).0 == id);
    }

    /// No request awaited yet.
    pub fn new() -> (r: PendingRequests)
        ensures
            r.well_formed(),
            r.entries@.len() == 0,
    {
        PendingRequests { entries: Vec::new() }
    }

    /// Registers a sent request; `awaited` says whether the caller waits
    /// for the response at the call site.
    pub fn register(&mut self, request_id: u64, awaited: bool) -> (r: bool)
        requires
            old(self).well_formed(),
        ensures
            final(self).well_formed(),
            r == !old(self).spec_pending(request_id),
            r ==> final(self).entries@ == old(self).entries@.push((request_id, awaited)),
            !r ==> final(self).entries@ == old(self).entries@,
    {
        let n = self.entries.len();
        let mut i: usize = 0;
        while i < n
            invariant
                i <= n,
                n == self.entries@.len(),
                self == old(self),
                self.well_formed(),
                forall|k: int| 0 <= k < i ==> (#[trigger] self.entries@[k]).0 != request_id,
            decreases n - i,
        {
            if self.entries[i].0 == request_id {
                proof {
                    assert(old(self).spec_pending(request_id));
                }
                return false;
            }
            i += 1;
        }
        let ghost pre = self.entries@;
        self.entries.push((request_id, awaited));
        proof {
            assert forall|a: int, b: int| 0 <= a < b < self.entries@.len() implies (
            #[trigger] self.entries@[a]).0 != (#[trigger] self.entries@[b]).0 by {
                if b == self.entries@.len() - 1 {
                    assert(!pending_upto(pre, pre.len() as int, request_id));
                }
            }
        }
        true
    }

    /// Removes a request id, handing back whether its caller awaited the
    /// response; `None` when the id was never registered.
    pub fn remove(&mut self, request_id: u64) -> (r: Option<bool>)
        requires
            old(self).well_formed(),
        ensures
            final(self).well_formed(),
            r is Some <==> old(self).spec_pending(request_id),
            r matches Some(awaited) ==> exists|i: int|
                0 <= i < old(self).entries@.len() && old(self).entries@[i] == (
                request_id,
                awaited,
            ) && final(self).entries@ == old(self).entries@.remove(i),
            r is None ==> final(self).entries@ == old(self).entries@,
            !final(self).spec_pending(request_id),
    {
        let n = self.entries.len();
        let mut i: usize = 0;
        while i < n
            invariant
                i <= n,
                n == self.entries@.len(),
                self == old(self),
                self.well_formed(),
                forall|k: int| 0 <= k < i ==> (#[trigger] self.entries@[k]).0 != request_id,
            decreases n - i,
        {
            if self.entries[i].0 == request_id {
                let ghost pre = self.entries@;
                let ghost idx = i as int;
                let entry = self.entries.remove(i);
                proof {
                    assert(pre[idx] == (request_id, entry.1));
                    assert(self.entries@ == pre.remove(idx));
                    assert(self.entries@ =~= pre.subrange(0, idx) + pre.subrange(
                        idx + 1,
                        pre.len() as int,
                    ));
                    assert forall|k: int| 0 <= k < self.entries@.len() implies #[trigger] self.entries@[k] == (
                        if k < idx {
                            pre[k]
                        } else {
                            pre[k + 1]
                        }) by {}
                    assert forall|a: int, b: int| 0 <= a < b < self.entries@.len() implies (
                    #[trigger] self.entries@[a]).0 != (#[trigger] self.entries@[b]).0 by {
                        let pa = if a < idx {
                            a
                        } else {
                            a + 1
                        };
                        let pb = if b < idx {
                            b
                        } else {
                            b + 1
                        };
                        assert(self.entries@[a] == pre[pa] && self.entries@[b] == pre[pb]);
                    }
                    assert forall|k: int| 0 <= k < self.entries@.len() implies (
                    #[trigger] self.entries@[k]).0 != request_id by {
                        let pk = if k < idx {
                            k
                        } else {
                            k + 1
                        };
                        assert(self.entries@[k] == pre[pk]);
                        if pk != idx {
                            assert(pre[pk].0 != pre[idx].0);
                        }
                    }
                }
                return Some(entry.1);
            }
            i += 1;
        }
        None
    }
}

/// Builds the fire-and-forget replicate notice one peer sends another:
/// the sender's own address as holder, and the offered record keys.
pub fn replicate_request(our_address: NetworkAddress, keys: Vec<NetworkAddress>) -> (r: Request)
    ensures
        r matches Request::Cmd(c) && c matches Cmd::Replicate { holder, keys: ks } && holder
            == our_address && ks@ == keys@,
{
    Request::Cmd(Cmd::Replicate { holder: our_address, keys })
}

/// Builds the request that pulls an announced record directly from the
/// peer that claims to hold it.
pub fn get_replicated_record_request(requester: NetworkAddress, key: NetworkAddress) -> (r:
    Request)
    ensures
        r == Request::Query(Query::GetReplicatedRecord { requester, key }),
{
    Request::Query(Query::GetReplicatedRecord { requester, key })
}

/// Dispatches one protocol event. A received request is handed to the
/// upper layers. A received response wakes the caller awaiting it, or —
/// when the request was sent without a caller awaiting — is surfaced as an
/// event; a response whose id was never registered is dropped. An outbound
/// failure wakes the awaiting caller with the error; one that nobody can
/// be woken for is itself an error. Inbound failures and sent responses
/// need no action.
pub fn handle_msg(event: MsgEvent, pending: &mut PendingRequests) -> (r: Result<
    MsgAction,
    NetworkError,
>)
    requires
        old(pending).well_formed(),
    ensures
        final(pending).well_formed(),
        event matches MsgEvent::Message(m) ==> (match m {
            Msg::Request { request_id: _, request } => r == Ok::<MsgAction, NetworkError>(
                MsgAction::EmitRequestReceived(request),
            ) && final(pending).entries@ == old(pending).entries@,
            Msg::Response { request_id, response } => {
                if old(pending).spec_pending(request_id) {
                    (exists|awaited: bool|
                        #![auto]
                        old(pending).spec_awaited(request_id, awaited) && r == Ok::<
                            MsgAction,
                            NetworkError,
                        >(
                            if awaited {
                                MsgAction::ForwardResponse { request_id, response }
                            } else {
                                MsgAction::EmitResponseReceived(response)
                            },
                        )) && !final(pending).spec_pending(request_id)
                } else {
                    r == Ok::<MsgAction, NetworkError>(MsgAction::NoAction) && final(pending).entries@ == old(pending).entries@
                }
            },
        }),
        event matches MsgEvent::OutboundFailure { request_id, error } ==> (if old(pending).spec_awaited(request_id, true) {
            r == Ok::<MsgAction, NetworkError>(MsgAction::ForwardFailure { request_id, error })
        } else {
            r == Err::<MsgAction, NetworkError>(NetworkError::ReceivedResponseDropped(request_id))
        }) && !final(pending).spec_pending(request_id),
        event matches MsgEvent::InboundFailure { .. } ==> r == Ok::<MsgAction, NetworkError>(
            MsgAction::NoAction,
        ) && final(pending).entries@ == old(pending).entries@,
        event matches MsgEvent::ResponseSent { .. } ==> r == Ok::<MsgAction, NetworkError>(
            MsgAction::NoAction,
        ) && final(pending).entries@ == old(pending).entries@,
{
    match event {
        MsgEvent::Message(m) => match m {
            Msg::Request { request_id: _, request } => Ok(MsgAction::EmitRequestReceived(request)),
            Msg::Response { request_id, response } => match pending.remove(request_id) {
                Some(true) => {
                    proof {
                        assert(old(pending).spec_awaited(request_id, true));
                    }
                    Ok(MsgAction::ForwardResponse { request_id, response })
                },
                Some(false) => {
                    proof {
                        assert(old(pending).spec_awaited(request_id, false));
                    }
                    Ok(MsgAction::EmitResponseReceived(response))
                },
                None => Ok(MsgAction::NoAction),
            },
        },
        MsgEvent::OutboundFailure { request_id, error } => match pending.remove(request_id) {
            Some(true) => {
                proof {
                    assert(old(pending).spec_awaited(request_id, true));
                }
                Ok(MsgAction::ForwardFailure { request_id, error })
            },
            Some(false) => {
                proof {
                    if old(pending).spec_awaited(request_id, true) {
                        old(pending).lemma_awaited_unique(request_id, true, false);
                    }
                }
                Err(NetworkError::ReceivedResponseDropped(request_id))
            },
            None => {
                proof {
                    if old(pending).spec_awaited(request_id, true) {
                        old(pending).lemma_awaited_implies_pending(request_id, true);
                    }
                }
                Err(NetworkError::ReceivedResponseDropped(request_id))
            },
        },
        MsgEvent::InboundFailure { .. } => Ok(MsgAction::NoAction),
        MsgEvent::ResponseSent { .. } => Ok(MsgAction::NoAction),
    }
}

} // verus!
