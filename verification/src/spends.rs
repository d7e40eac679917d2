//! Spend settlement: signed spends are broadcast as independent quorum
//! puts, per-spend outcomes are aggregated, and conflicting writes are
//! classified as double-spend. A double-spend report always takes
//! precedence over generic failures, because it signals a semantic problem
//! the caller's wallet must resolve rather than a retryable transport
//! problem. A spend, once written, is settled exactly once: a get that
//! finds no spend record proves a value is still unspent.

use vstd::prelude::*;
use crate::address::{NetworkAddress, PeerId};
use crate::header::{header_bytes, try_serialize_record, Record, RecordKind};
use crate::transport::{
    GetRecordCfg, GetRecordError, NetworkError, PutRecordCfg, Quorum, RetryStrategy,
    VerificationKind,
};

verus! {

/// Whether a spend put is confirmed by a re-read from the network: spends
/// are content the caller cannot afford to silently lose.
pub const VERIFY_STORE: bool = true;

/// The unique key of a spend: a one-time authorization to consume a prior
/// value. At most one spend may ever be accepted for a given unique key.
#[derive(Clone, Copy, PartialEq, Eq, Structural, Debug)]
pub struct UniquePubkey(pub u64);

/// An owner-signed, immutable spend record. Its signature and serialized
/// body come from the wallet collaborator; this engine treats the body as
/// opaque payload bytes keyed by the unique key.
#[derive(Clone, PartialEq, Eq, Debug)]
pub struct SignedSpend {
    pub unique_pubkey: UniquePubkey,
    pub payload: Vec<u8>,
}

/// A cash note: a value redeemable by spending its unique key.
#[derive(Clone, Copy, PartialEq, Eq, Structural, Debug)]
pub struct CashNote {
    pub unique_pubkey: UniquePubkey,
}

/// Errors of a spend settlement batch.
#[derive(Clone, PartialEq, Eq, Debug)]
pub enum SendSpendsError {
    /// The listed unique keys hit conflicting writes: their values were
    /// already spent (or concurrently spent) to another address.
    DoubleSpendAttemptedForCashNotes(Vec<UniquePubkey>),
    /// No conflicts, but the puts for the listed keys failed.
    CouldNotSendMoney(Vec<UniquePubkey>),
}

/// Errors of a cash-note validity check.
#[derive(Clone, Copy, PartialEq, Eq, Structural, Debug)]
pub enum CashNoteError {
    /// A spend record already exists for the note's unique key.
    AlreadySpent,
    /// The spend status could not be determined.
    FailedToGetSpend(NetworkError),
}

/// Errors of receiving a transfer.
#[derive(Clone, Copy, PartialEq, Eq, Structural, Debug)]
pub enum TransferError {
    CouldNotSendMoney,
    WalletError,
    NetworkError(NetworkError),
}

/// Errors of deserializing and receiving a transfer envelope.
#[derive(Clone, Copy, PartialEq, Eq, Structural, Debug)]
pub enum ReceiveError {
    TransferDeserializationFailed,
    TransferError(TransferError),
}

/// Errors during sending of a transfer.
#[derive(Clone, PartialEq, Eq, Debug)]
pub enum SendError {
    /// The signed transaction did not produce exactly one output note;
    /// carries how many it produced.
    CashNoteAmountUnexpected(usize),
    CashNoteHasNoParentSpends,
    WalletError,
    TransferError,
    SpendsError(SendSpendsError),
}

/// The address at which a spend with this unique key is stored.
pub open spec fn spec_spend_address(pk: UniquePubkey) -> NetworkAddress {
    NetworkAddress(pk.0)
}

/// Derives the storage address of a spend from its unique key.
pub fn spend_address_from_unique_pubkey(pk: &UniquePubkey) -> (a: NetworkAddress)
    ensures
        a == spec_spend_address(*pk),
{
    NetworkAddress(pk.0)
}

/// Builds the record a spend is stored under: keyed by the spend address
/// of its unique key, holding the spend payload framed as kind `Spend`.
pub fn prepare_spend_record(spend: &SignedSpend) -> (record: Record)
    ensures
        record.key == spec_spend_address(spend.unique_pubkey),
        record.value@ == header_bytes(RecordKind::Spend) + spend.payload@,
{
    let key = spend_address_from_unique_pubkey(&spend.unique_pubkey);
    let value = match try_serialize_record(&spend.payload, RecordKind::Spend) {
        Ok(v) => v,
        Err(_) => {
            proof {
                assert(false);
            }
            Vec::new()
        },
    };
    Record { key, value }
}

/// Put configuration for a spend: majority quorum with persistent retries,
/// close-group routing, and a majority re-read without retry (retrying the
/// verification get would duplicate the put's own retries) that checks the
/// network against the just-written record at the expected holders.
pub fn spend_put_cfg(record_to_verify: Option<Record>, expected_holders: Vec<PeerId>) -> (cfg:
    PutRecordCfg)
    ensures
        cfg.put_quorum == Quorum::Majority,
        cfg.retry_strategy == Some(RetryStrategy::Persistent),
        cfg.use_put_record_to is None,
        cfg.verification matches Some(v) && v.0 == VerificationKind::Network && v.1.get_quorum
            == Quorum::Majority && v.1.retry_strategy is None && v.1.target_record
            == record_to_verify && v.1.expected_holders == expected_holders && v.1.is_register
            == false,
{
    let verification_cfg = GetRecordCfg {
        get_quorum: Quorum::Majority,
        retry_strategy: None,
        target_record: record_to_verify,
        expected_holders,
        is_register: false,
    };
    PutRecordCfg {
        put_quorum: Quorum::Majority,
        retry_strategy: Some(RetryStrategy::Persistent),
        use_put_record_to: None,
        verification: Some((VerificationKind::Network, verification_cfg)),
    }
}

/// Whether a put outcome signals a conflicting write: a different value
/// already (or concurrently) occupies the spend's address — the
/// double-spend signal.
pub open spec fn is_conflict(outcome: Result<(), NetworkError>) -> bool {
    ||| outcome == Err::<(), NetworkError>(
        NetworkError::GetRecordError(GetRecordError::RecordDoesNotMatch),
    )
    ||| outcome == Err::<(), NetworkError>(
        NetworkError::GetRecordError(GetRecordError::SplitRecord),
    )
}

/// Some outcome in the batch is a conflict.
pub open spec fn has_conflict(outcomes: Seq<(UniquePubkey, Result<(), NetworkError>)>) -> bool {
    exists|i: int| 0 <= i < outcomes.len() && is_conflict((#[trigger] outcomes[i]).1)
}

/// Among the first `n` outcomes, key `k` hit a conflict.
pub open spec fn key_has_conflict(
    outcomes: Seq<(UniquePubkey, Result<(), NetworkError>)>,
    n: int,
    k: UniquePubkey,
) -> bool {
    exists|i: int| 0 <= i < n && (#[trigger] outcomes[i]).0 == k && is_conflict(outcomes[i].1)
}

/// Some outcome in the batch is a non-conflict failure.
pub open spec fn has_generic_failure(
    outcomes: Seq<(UniquePubkey, Result<(), NetworkError>)>,
) -> bool {
    exists|i: int|
        0 <= i < outcomes.len() && (#[trigger] outcomes[i]).1 is Err && !is_conflict(outcomes[i].1)
}

/// The keys whose puts failed without a conflict, in batch order.
pub open spec fn failed_keys(outcomes: Seq<(UniquePubkey, Result<(), NetworkError>)>) -> Seq<
    UniquePubkey,
>
    decreases outcomes.len(),
{
    if outcomes.len() == 0 {
        Seq::empty()
    } else {
        let prefix = failed_keys(outcomes.drop_last());
        if outcomes.last().1 is Err && !is_conflict(outcomes.last().1) {
            prefix.push(outcomes.last().0)
        } else {
            prefix
        }
    }
}

/// Strictly ascending unique keys.
pub open spec fn sorted_unique_keys(s: Seq<UniquePubkey>) -> bool {
    forall|i: int, j: int| 0 <= i < j < s.len() ==> (#[trigger] s[i]).0 < (#[trigger] s[j]).0
}

/// Inserts a key into an ascending set of keys, keeping it ascending and
/// duplicate-free.
fn insert_sorted_unique(v: &mut Vec<UniquePubkey>, k: UniquePubkey)
    requires
        sorted_unique_keys(old(v)@),
    ensures
        sorted_unique_keys(final(v)@),
        final(v)@.contains(k),
        forall|x: UniquePubkey| old(v)@.contains(x) ==> final(v)@.contains(x),
        forall|j: int|
            0 <= j < final(v)@.len() ==> old(v)@.contains(#[trigger] final(v)@[j]) || final(v)@[j]
                == k,
{
    let mut i: usize = 0;
    while i < v.len() && v[i].0 < k.0
        invariant
            i <= v@.len(),
            v@ == old(v)@,
            forall|j: int| 0 <= j < i ==> (#[trigger] v@[j]).0 < k.0,
        decreases v.len() - i,
    {
        i += 1;
    }
    if i < v.len() && v[i].0 == k.0 {
        proof {
            assert(v@[i as int] == k);
            assert(v@.contains(k));
        }
        return;
    }
    let ghost pre = v@;
    proof {
        if (i as int) < pre.len() {
            assert(pre[i as int].0 > k.0);
        }
    }
    v.insert(i, k);
    proof {
        assert(v@ =~= pre.take(i as int).push(k) + pre.skip(i as int));
        assert forall|a: int, b: int| 0 <= a < b < v@.len() implies (#[trigger] v@[a]).0 < (
        #[trigger] v@[b]).0 by {
            if a < i && b > i {
                assert(pre[a].0 < k.0);
                assert(pre[i as int].0 <= pre[b - 1].0);
            } else if a == i && b > i {
                assert(pre[i as int].0 <= pre[b - 1].0);
            } else if a < i && b == i {
                assert(pre[a].0 < k.0);
            }
        }
        assert(v@[i as int] == k);
        assert(v@.contains(k));
        assert forall|x: UniquePubkey| pre.contains(x) implies v@.contains(x) by {
            let j = choose|j: int| 0 <= j < pre.len() && pre[j] == x;
            if j < i {
                assert(v@[j] == x);
            } else {
                assert(v@[j + 1] == x);
            }
        }
        assert forall|j: int| 0 <= j < v@.len() implies pre.contains(#[trigger] v@[j]) || v@[j]
            == k by {
            if j < i {
                assert(v@[j] == pre[j]);
                assert(pre.contains(pre[j]));
            } else if j > i {
                assert(v@[j] == pre[j - 1]);
                assert(pre.contains(pre[j - 1]));
            }
        }
    }
}

/// Aggregates the outcomes of one batch of spend puts (one outcome per
/// spend, keyed by its unique key). Conflicts are reported as a
/// double-spend naming exactly the conflicting keys, ascending and
/// without duplicates; this takes precedence over generic failures, which
/// are reported — in batch order — only when no conflict occurred. The
/// batch succeeds only when every spend was accepted.
pub fn send_spends_outcome(outcomes: &Vec<(UniquePubkey, Result<(), NetworkError>)>) -> (r: Result<
    (),
    SendSpendsError,
>)
    ensures
        has_conflict(outcomes@) ==> (r matches Err(
            SendSpendsError::DoubleSpendAttemptedForCashNotes(ks),
        ) && sorted_unique_keys(ks@) && (forall|j: int|
            0 <= j < ks@.len() ==> key_has_conflict(
                outcomes@,
                outcomes@.len() as int,
                #[trigger] ks@[j],
            )) && (forall|i: int|
            0 <= i < outcomes@.len() && is_conflict((#[trigger] outcomes@[i]).1) ==> ks@.contains(
                outcomes@[i].0,
            ))),
        !has_conflict(outcomes@) && has_generic_failure(outcomes@) ==> (r matches Err(
            SendSpendsError::CouldNotSendMoney(ks),
        ) && ks@ == failed_keys(outcomes@)),
        !has_conflict(outcomes@) && !has_generic_failure(outcomes@) ==> r == Ok::<
            (),
            SendSpendsError,
        >(()),
{
    let mut double_spent: Vec<UniquePubkey> = Vec::new();
    let mut errors: Vec<UniquePubkey> = Vec::new();
    let mut idx: usize = 0;
    while idx < outcomes.len()
        invariant
            idx <= outcomes@.len(),
            sorted_unique_keys(double_spent@),
            forall|j: int|
                0 <= j < double_spent@.len() ==> key_has_conflict(
                    outcomes@,
                    idx as int,
                    #[trigger] double_spent@[j],
                ),
            forall|i: int|
                0 <= i < idx && is_conflict((#[trigger] outcomes@[i]).1)
                    ==> double_spent@.contains(outcomes@[i].0),
            errors@ == failed_keys(outcomes@.take(idx as int)),
        decreases outcomes.len() - idx,
    {
        let ghost ds0 = double_spent@;
        let key = outcomes[idx].0;
        let is_c = match &outcomes[idx].1 {
            Err(NetworkError::GetRecordError(GetRecordError::RecordDoesNotMatch)) => true,
            Err(NetworkError::GetRecordError(GetRecordError::SplitRecord)) => true,
            _ => false,
        };
        proof {
            assert(is_c == is_conflict(outcomes@[idx as int].1));
            assert(outcomes@.take(idx + 1).drop_last() =~= outcomes@.take(idx as int));
            assert(outcomes@.take(idx + 1).last() == outcomes@[idx as int]);
        }
        if is_c {
            insert_sorted_unique(&mut double_spent, key);
        } else {
            let is_err = match &outcomes[idx].1 {
                Err(_) => true,
                Ok(_) => false,
            };
            if is_err {
                errors.push(key);
            }
        }
        proof {
            assert forall|j: int| 0 <= j < double_spent@.len() implies key_has_conflict(
                outcomes@,
                idx + 1,
                #[trigger] double_spent@[j],
            ) by {
                let x = double_spent@[j];
                if is_c && !ds0.contains(x) {
                    assert(x == key);
                    assert(outcomes@[idx as int].0 == key);
                } else {
                    assert(ds0.contains(x));
                    let j0 = choose|j0: int| 0 <= j0 < ds0.len() && ds0[j0] == x;
                    assert(key_has_conflict(outcomes@, idx as int, x));
                    let i0 = choose|i: int|
                        0 <= i < idx && (#[trigger] outcomes@[i]).0 == x && is_conflict(
                            outcomes@[i].1,
                        );
                    assert(0 <= i0 < idx + 1 && outcomes@[i0].0 == x && is_conflict(
                        outcomes@[i0].1,
                    ));
                }
            }
        }
        idx += 1;
    }
    proof {
        assert(outcomes@.take(outcomes@.len() as int) =~= outcomes@);
    }
    if double_spent.len() > 0 {
        proof {
            let witness = double_spent@[0];
            assert(key_has_conflict(outcomes@, outcomes@.len() as int, witness));
            let i0 = choose|i: int|
                0 <= i < outcomes@.len() && (#[trigger] outcomes@[i]).0 == witness && is_conflict(
                    outcomes@[i].1,
                );
            assert(has_conflict(outcomes@));
        }
        return Err(SendSpendsError::DoubleSpendAttemptedForCashNotes(double_spent));
    }
    proof {
        assert(!has_conflict(outcomes@)) by {
            if has_conflict(outcomes@) {
                let i = choose|i: int|
                    0 <= i < outcomes@.len() && is_conflict((#[trigger] outcomes@[i]).1);
                assert(double_spent@.contains(outcomes@[i].0));
            }
        }
    }
    if errors.len() > 0 {
        proof {
            lemma_failed_keys_nonempty(outcomes@);
        }
        return Err(SendSpendsError::CouldNotSendMoney(errors));
    }
    proof {
        lemma_failed_keys_nonempty(outcomes@);
    }
    Ok(())
}

/// The generic-failure list is nonempty exactly when some outcome is a
/// non-conflict failure.
proof fn lemma_failed_keys_nonempty(outcomes: Seq<(UniquePubkey, Result<(), NetworkError>)>)
    ensures
        failed_keys(outcomes).len() > 0 <==> has_generic_failure(outcomes),
    decreases outcomes.len(),
{
    if outcomes.len() == 0 {
    } else {
        lemma_failed_keys_nonempty(outcomes.drop_last());
        if outcomes.last().1 is Err && !is_conflict(outcomes.last().1) {
            assert((#[trigger] outcomes[outcomes.len() - 1]).1 is Err && !is_conflict(
                outcomes[outcomes.len() - 1].1,
            ));
        } else {
            if has_generic_failure(outcomes.drop_last()) {
                let i = choose|i: int|
                    0 <= i < outcomes.drop_last().len() && (#[trigger] outcomes.drop_last()[i]).1
                        is Err && !is_conflict(outcomes.drop_last()[i].1);
                assert((#[trigger] outcomes[i]).1 is Err && !is_conflict(outcomes[i].1));
            }
            if has_generic_failure(outcomes) {
                let i = choose|i: int|
                    0 <= i < outcomes.len() && (#[trigger] outcomes[i]).1 is Err && !is_conflict(
                        outcomes[i].1,
                    );
                assert(i < outcomes.len() - 1);
                assert((#[trigger] outcomes.drop_last()[i]).1 is Err && !is_conflict(
                    outcomes.drop_last()[i].1,
                ));
            }
        }
    }
}

/// Decides whether a cash note is still unspent, from the outcome of
/// fetching the spend stored at its unique key's address: absence of any
/// spend record means the note is still unspent and valid to deposit; an
/// existing spend means it is already consumed and must be rejected; any
/// other failure leaves its status unknown.
pub fn verify_if_cash_note_is_valid(get_outcome: &Result<SignedSpend, NetworkError>) -> (r: Result<
    (),
    CashNoteError,
>)
    ensures
        r is Ok <==> *get_outcome == Err::<SignedSpend, NetworkError>(
            NetworkError::GetRecordError(GetRecordError::RecordNotFound),
        ),
        get_outcome is Ok ==> r == Err::<(), CashNoteError>(CashNoteError::AlreadySpent),
        get_outcome matches Err(e) ==> (e == NetworkError::GetRecordError(
            GetRecordError::RecordNotFound,
        ) || r == Err::<(), CashNoteError>(CashNoteError::FailedToGetSpend(*e))),
{
    match get_outcome {
        Err(NetworkError::GetRecordError(GetRecordError::RecordNotFound)) => Ok(()),
        Ok(_) => Err(CashNoteError::AlreadySpent),
        Err(e) => Err(CashNoteError::FailedToGetSpend(*e)),
    }
}

/// The unique keys of the candidate notes that are valid to deposit, in
/// candidate order: exactly those whose spend lookup found nothing.
pub open spec fn valid_note_keys(
    candidates: Seq<(CashNote, Result<SignedSpend, NetworkError>)>,
) -> Seq<UniquePubkey>
    decreases candidates.len(),
{
    if candidates.len() == 0 {
        Seq::empty()
    } else {
        let prefix = valid_note_keys(candidates.drop_last());
        if candidates.last().1 == Err::<SignedSpend, NetworkError>(
            NetworkError::GetRecordError(GetRecordError::RecordNotFound),
        ) {
            prefix.push(candidates.last().0.unique_pubkey)
        } else {
            prefix
        }
    }
}

/// The deposit rule of receiving a transfer: of the redeemed candidate
/// notes (each with the outcome of its spend lookup), exactly those whose
/// unique key shows no existing spend are deposited; the others are
/// dropped.
pub fn select_valid_cash_notes(candidates: &Vec<(CashNote, Result<SignedSpend, NetworkError>)>) -> (
    accepted: Vec<UniquePubkey>)
    ensures
        accepted@ == valid_note_keys(candidates@),
{
    let mut accepted: Vec<UniquePubkey> = Vec::new();
    let mut i: usize = 0;
    while i < candidates.len()
        invariant
            i <= candidates@.len(),
            accepted@ == valid_note_keys(candidates@.take(i as int)),
        decreases candidates.len() - i,
    {
        proof {
            assert(candidates@.take(i + 1).drop_last() =~= candidates@.take(i as int));
            assert(candidates@.take(i + 1).last() == candidates@[i as int]);
        }
        let valid = match verify_if_cash_note_is_valid(&candidates[i].1) {
            Ok(_) => true,
            Err(_) => false,
        };
        if valid {
            let key = candidates[i].0.unique_pubkey;
            accepted.push(key);
        }
        i += 1;
    }
    proof {
        assert(candidates@.take(candidates@.len() as int) =~= candidates@);
    }
    accepted
}

/// Picks the single output note of a signed transaction; a transfer is
/// sent to one recipient, so any other output count is unexpected.
pub fn single_output_cash_note(outputs: &Vec<CashNote>) -> (r: Result<CashNote, SendError>)
    ensures
        outputs@.len() == 1 ==> r == Ok::<CashNote, SendError>(outputs@[0]),
        outputs@.len() != 1 ==> (r matches Err(SendError::CashNoteAmountUnexpected(n)) && n
            == outputs@.len()),
{
    if outputs.len() == 1 {
        Ok(outputs[0])
    } else {
        Err(SendError::CashNoteAmountUnexpected(outputs.len()))
    }
}

} // verus!
