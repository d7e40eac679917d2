//! Replication fetcher: queues the record keys the local peer is missing,
//! attributed to the peers that announced them, and decides how each
//! (peer, key) pair is pulled — a direct request to the announcing holder
//! first, falling back to a majority-quorum network get, so progress is
//! guaranteed even if the announcing peer has itself churned away. Each
//! pull is independent; one failure aborts no sibling.

use vstd::prelude::*;
use crate::address::{copy_vec, NetworkAddress, PeerId};
use crate::header::{parse_header, Error, Record, RecordHeader, RecordKind};
use crate::msg::{QueryResponse, Response};
use crate::transport::{GetRecordCfg, NetworkError, Quorum};

verus! {

/// A (holder, key) pair is queued.
pub open spec fn pair_listed(
    pairs: Seq<(PeerId, NetworkAddress)>,
    holder: PeerId,
    key: NetworkAddress,
) -> bool {
    exists|i: int| 0 <= i < pairs.len() && (#[trigger] pairs[i]) == (holder, key)
}

/// The keys the local peer is missing, each attributed to the peer that
/// announced it.
pub struct ReplicationFetcher {
    pub to_fetch: Vec<(PeerId, NetworkAddress)>,
}

impl ReplicationFetcher {
    /// No (holder, key) pair is queued twice.
    pub open spec fn well_formed(self) -> bool {
        forall|i: int, j: int|
            0 <= i < j < self.to_fetch@.len() ==> (#[trigger] self.to_fetch@[i]) != (
            #[trigger] self.to_fetch@[j])
    }

    /// An empty queue.
    pub fn new() -> (r: ReplicationFetcher)
        ensures
            r.well_formed(),
            r.to_fetch@.len() == 0,
    {
        ReplicationFetcher { to_fetch: Vec::new() }
    }

    /// Queues the keys `holder` announced and the local peer is missing;
    /// pairs already queued are not queued again.
    pub fn add_keys(&mut self, holder: PeerId, keys: &Vec<NetworkAddress>)
        requires
            old(self).well_formed(),
        ensures
            final(self).well_formed(),
            forall|k: NetworkAddress|
                keys@.contains(k) ==> pair_listed(final(self).to_fetch@, holder, k),
            forall|i: int|
                0 <= i < old(self).to_fetch@.len() ==> pair_listed(
                    final(self).to_fetch@,
                    (#[trigger] old(self).to_fetch@[i]).0,
                    old(self).to_fetch@[i].1,
                ),
            forall|i: int|
                0 <= i < final(self).to_fetch@.len() ==> old(self).to_fetch@.contains(
                    #[trigger] final(self).to_fetch@[i],
                ) || (final(self).to_fetch@[i].0 == holder && keys@.contains(
                    final(self).to_fetch@[i].1,
                )),
    {
        let mut n: usize = 0;
        while n < keys.len()
            invariant
                n <= keys@.len(),
                self.well_formed(),
                forall|d: int|
                    0 <= d < n ==> pair_listed(self.to_fetch@, holder, #[trigger] keys@[d]),
                forall|i: int|
                    0 <= i < old(self).to_fetch@.len() ==> pair_listed(
                        self.to_fetch@,
                        (#[trigger] old(self).to_fetch@[i]).0,
                        old(self).to_fetch@[i].1,
                    ),
                forall|i: int|
                    0 <= i < self.to_fetch@.len() ==> old(self).to_fetch@.contains(
                        #[trigger] self.to_fetch@[i],
                    ) || (self.to_fetch@[i].0 == holder && keys@.contains(self.to_fetch@[i].1)),
            decreases keys.len() - n,
        {
            let key = keys[n];
            let mut present = false;
            let mut i: usize = 0;
            while i < self.to_fetch.len()
                invariant
                    i <= self.to_fetch@.len(),
                    n < keys@.len(),
                    key == keys@[n as int],
                    present <==> exists|j: int|
                        0 <= j < i && (#[trigger] self.to_fetch@[j]) == (holder, key),
                decreases self.to_fetch.len() - i,
            {
                if self.to_fetch[i].0 == holder && self.to_fetch[i].1 == key {
                    present = true;
                    proof {
                        assert(self.to_fetch@[i as int] == (holder, key));
                    }
                }
                i += 1;
            }
            let ghost pre = self.to_fetch@;
            if !present {
                self.to_fetch.push((holder, key));
                proof {
                    assert forall|a: int, b: int| 0 <= a < b < self.to_fetch@.len() implies (
                    #[trigger] self.to_fetch@[a]) != (#[trigger] self.to_fetch@[b]) by {
                        if b == self.to_fetch@.len() - 1 {
                            assert(!pair_listed(pre, holder, key));
                            assert(self.to_fetch@[a] == pre[a]);
                        }
                    }
                    assert forall|i2: int| 0 <= i2 < pre.len() implies pair_listed(
                        self.to_fetch@,
                        (#[trigger] pre[i2]).0,
                        pre[i2].1,
                    ) by {
                        assert(self.to_fetch@[i2] == pre[i2]);
                        assert(self.to_fetch@[i2] == (pre[i2].0, pre[i2].1));
                    }
                    assert(self.to_fetch@[self.to_fetch@.len() - 1] == (holder, key));
                }
            }
            proof {
                assert(pair_listed(self.to_fetch@, holder, keys@[n as int]));
                assert forall|d: int| 0 <= d < n + 1 implies pair_listed(
                    self.to_fetch@,
                    holder,
                    #[trigger] keys@[d],
                ) by {
                    if d < n {
                        let j = choose|j: int|
                            0 <= j < pre.len() && (#[trigger] pre[j]) == (holder, keys@[d]);
                        assert(self.to_fetch@[j] == (holder, keys@[d]));
                    }
                }
                assert forall|i2: int| 0 <= i2 < old(self).to_fetch@.len() implies pair_listed(
                    self.to_fetch@,
                    (#[trigger] old(self).to_fetch@[i2]).0,
                    old(self).to_fetch@[i2].1,
                ) by {
                    let p = old(self).to_fetch@[i2];
                    let j = choose|j: int| 0 <= j < pre.len() && (#[trigger] pre[j]) == (p.0, p.1);
                    assert(self.to_fetch@[j] == (p.0, p.1));
                }
            }
            n += 1;
        }
    }

    /// Hands out every queued (holder, key) pair — one independent fetch
    /// task each — and empties the queue.
    pub fn drain(&mut self) -> (r: Vec<(PeerId, NetworkAddress)>)
        ensures
            r@ == old(self).to_fetch@,
            final(self).to_fetch@.len() == 0,
            final(self).well_formed(),
    {
        let r = copy_vec(&self.to_fetch);
        self.to_fetch.clear();
        r
    }
}

/// Extracts the raw record a holder handed back on a direct
/// get-replicated-record request: only a successful reply of the right
/// shape yields a record — keyed by the requested key, holding the bytes
/// the peer sent — and any failure or other reply yields nothing, so the
/// caller falls back to a network-wide quorum fetch.
pub fn record_from_direct_reply(key: NetworkAddress, reply: &Result<Response, NetworkError>) -> (r:
    Option<Record>)
    ensures
        match reply {
            Ok(Response::Query(QueryResponse::GetReplicatedRecord(Ok((holder, bytes))))) => (
            r matches Some(rec) && rec.key == key && rec.value@ == bytes@),
            _ => r is None,
        },
{
    match reply {
        Ok(Response::Query(QueryResponse::GetReplicatedRecord(Ok((_holder, record_content))))) => {
            let value = copy_vec(record_content);
            Some(Record { key, value })
        },
        _ => None,
    }
}

/// Get configuration for the network fallback of a replication fetch: a
/// majority must agree, with no retry and no expected record.
pub fn replication_fetch_cfg() -> (cfg: GetRecordCfg)
    ensures
        cfg.get_quorum == Quorum::Majority,
        cfg.retry_strategy is None,
        cfg.target_record is None,
        cfg.expected_holders@.len() == 0,
        cfg.is_register == false,
{
    GetRecordCfg {
        get_quorum: Quorum::Majority,
        retry_strategy: None,
        target_record: None,
        expected_holders: Vec::new(),
        is_register: false,
    }
}

/// Validation a fetched record must pass before it enters local storage:
/// its header must parse, and the kind is handed on to kind-specific
/// validation. A record that fails here is discarded, never stored.
pub fn accept_fetched_record(record: &Record) -> (r: Result<RecordKind, Error>)
    ensures
        r is Ok <==> record.value@.len() >= 3 && parse_header(record.value@) is Some,
        r matches Ok(k) ==> parse_header(record.value@) == Some(k),
{
    match RecordHeader::from_record(record) {
        Ok(header) => Ok(header.kind),
        Err(e) => Err(e),
    }
}

} // verus!
