//! Quorum transport model: the quorum levels a put or get can demand, the
//! retry and verification configuration of one network operation, and the
//! rule that turns a set of collected responses into a result or into one
//! of the conflict / not-found / quorum errors.

use vstd::prelude::*;
use crate::address::PeerId;
use crate::header::Record;

verus! {

/// How many of the sampled peers must agree for an operation to count.
#[derive(Clone, Copy, PartialEq, Eq, Structural, Debug)]
pub enum Quorum {
    /// The first responder suffices.
    One,
    /// More than half of the sampled peer set must agree.
    Majority,
    /// Every sampled peer must agree.
    All,
}

/// Retry policy of a network operation: a single attempt when absent, or
/// bounded retries with backoff.
#[derive(Clone, Copy, PartialEq, Eq, Structural, Debug)]
pub enum RetryStrategy {
    Persistent,
}

/// How a just-written record is confirmed durable.
#[derive(Clone, Copy, PartialEq, Eq, Structural, Debug)]
pub enum VerificationKind {
    /// Re-read the record from the network after the write.
    Network,
}

/// Failure taxonomy of a quorum get. `RecordDoesNotMatch` and
/// `SplitRecord` are conflict signals — a different value already occupies
/// the address, or peers disagree — and are never resolved by retrying.
#[derive(Clone, Copy, PartialEq, Eq, Structural, Debug)]
pub enum GetRecordError {
    RecordNotFound,
    RecordDoesNotMatch,
    SplitRecord,
    QuorumNotReached,
}

/// Errors surfaced by network operations.
#[derive(Clone, Copy, PartialEq, Eq, Structural, Debug)]
pub enum NetworkError {
    GetRecordError(GetRecordError),
    Transport,
    InternalMsgChannelDropped,
    ReceivedResponseDropped(u64),
}

/// Configuration of one quorum get.
pub struct GetRecordCfg {
    pub get_quorum: Quorum,
    pub retry_strategy: Option<RetryStrategy>,
    /// When present, the fetched record must equal this one.
    pub target_record: Option<Record>,
    /// Peers expected to hold the record, checked during verification.
    pub expected_holders: Vec<PeerId>,
    pub is_register: bool,
}

/// Configuration of one quorum put.
pub struct PutRecordCfg {
    pub put_quorum: Quorum,
    pub retry_strategy: Option<RetryStrategy>,
    /// When present, the put goes directly to these peers instead of a
    /// close-group sample; used for payment-bearing kinds, whose named
    /// payee must receive the data regardless of XOR proximity.
    pub use_put_record_to: Option<Vec<PeerId>>,
    /// Optional durability re-read performed after the put.
    pub verification: Option<(VerificationKind, GetRecordCfg)>,
}

/// Whether `agreeing` matching responses out of `sampled` peers meet the
/// quorum.
pub open spec fn quorum_check(q: Quorum, agreeing: int, sampled: int) -> bool {
    match q {
        Quorum::One => agreeing >= 1,
        Quorum::Majority => 2 * agreeing > sampled,
        Quorum::All => agreeing >= sampled && sampled > 0,
    }
}

/// Decides whether a quorum has been reached.
pub fn quorum_satisfied(q: &Quorum, agreeing: usize, sampled: usize) -> (r: bool)
    ensures
        r == quorum_check(*q, agreeing as int, sampled as int),
{
    match q {
        Quorum::One => agreeing >= 1,
        Quorum::Majority => agreeing > sampled / 2,
        Quorum::All => agreeing >= sampled && sampled > 0,
    }
}

/// Two records carry the same key and the same bytes.
pub open spec fn record_matches(a: Record, b: Record) -> bool {
    a.key == b.key && a.value@ == b.value@
}

/// Compares two records by key and value bytes.
pub fn record_eq(a: &Record, b: &Record) -> (r: bool)
    ensures
        r == record_matches(*a, *b),
{
    if a.key != b.key {
        return false;
    }
    if a.value.len() != b.value.len() {
        return false;
    }
    let mut i: usize = 0;
    while i < a.value.len()
        invariant
            i <= a.value@.len(),
            a.value@.len() == b.value@.len(),
            a.key == b.key,
            forall|k: int| 0 <= k < i ==> a.value@[k] == b.value@[k],
        decreases a.value.len() - i,
    {
        if a.value[i] != b.value[i] {
            return false;
        }
        i += 1;
    }
    proof {
        assert(a.value@ =~= b.value@);
    }
    true
}

/// Turns the agreeing responses collected by one get into its outcome:
/// no response at all is `RecordNotFound`; disagreeing responses are the
/// `SplitRecord` conflict; a response differing from the expected target
/// record is the `RecordDoesNotMatch` conflict; agreement by too few of
/// the sampled peers is `QuorumNotReached`; otherwise the agreed record
/// is returned.
pub fn evaluate_get_responses(
    responses: Vec<Record>,
    sampled: usize,
    get_quorum: &Quorum,
    target_record: Option<&Record>,
) -> (r: Result<Record, GetRecordError>)
    ensures
        responses@.len() == 0 ==> r == Err::<Record, GetRecordError>(GetRecordError::RecordNotFound),
        responses@.len() > 0 && !(forall|i: int|
            0 <= i < responses@.len() ==> record_matches(#[trigger] responses@[i], responses@[0]))
            ==> r == Err::<Record, GetRecordError>(GetRecordError::SplitRecord),
        responses@.len() > 0 && (forall|i: int|
            0 <= i < responses@.len() ==> record_matches(#[trigger] responses@[i], responses@[0]))
            && (target_record matches Some(t) && !record_matches(*t, responses@[0])) ==> r == Err::<
            Record,
            GetRecordError,
        >(GetRecordError::RecordDoesNotMatch),
        responses@.len() > 0 && (forall|i: int|
            0 <= i < responses@.len() ==> record_matches(#[trigger] responses@[i], responses@[0]))
            && (target_record is None || record_matches(*target_record.unwrap(), responses@[0]))
            ==> if quorum_check(*get_quorum, responses@.len() as int, sampled as int) {
            r == Ok::<Record, GetRecordError>(responses@[0])
        } else {
            r == Err::<Record, GetRecordError>(GetRecordError::QuorumNotReached)
        },
{
    let mut rs = responses;
    if rs.len() == 0 {
        return Err(GetRecordError::RecordNotFound);
    }
    let mut i: usize = 1;
    while i < rs.len()
        invariant
            1 <= i <= rs@.len(),
            rs@ == responses@,
            rs@.len() > 0,
            forall|k: int| 0 <= k < i ==> record_matches(#[trigger] rs@[k], rs@[0]),
        decreases rs.len() - i,
    {
        let same = {
            let first = &rs[0];
            record_eq(&rs[i], first)
        };
        if !same {
            return Err(GetRecordError::SplitRecord);
        }
        i += 1;
    }
    if let Some(t) = target_record {
        if !record_eq(t, &rs[0]) {
            return Err(GetRecordError::RecordDoesNotMatch);
        }
    }
    if !quorum_satisfied(get_quorum, rs.len(), sampled) {
        return Err(GetRecordError::QuorumNotReached);
    }
    let rec = rs.remove(0);
    Ok(rec)
}

} // verus!
