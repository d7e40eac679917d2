use sn_replication::address::{NetworkAddress, PeerId};
use sn_replication::spends::{
    prepare_spend_record, select_valid_cash_notes, send_spends_outcome, single_output_cash_note,
    spend_address_from_unique_pubkey, spend_put_cfg, verify_if_cash_note_is_valid, CashNote,
    CashNoteError, SendError, SendSpendsError, SignedSpend, UniquePubkey, VERIFY_STORE,
};
use sn_replication::transport::{
    GetRecordError, NetworkError, Quorum, RetryStrategy, VerificationKind,
};

fn conflict() -> Result<(), NetworkError> {
    Err(NetworkError::GetRecordError(
        GetRecordError::RecordDoesNotMatch,
    ))
}

fn split() -> Result<(), NetworkError> {
    Err(NetworkError::GetRecordError(GetRecordError::SplitRecord))
}

fn transport_failure() -> Result<(), NetworkError> {
    Err(NetworkError::Transport)
}

#[test]
fn double_spend_report_takes_precedence_and_names_exactly_the_conflicting_keys() {
    let outcomes = vec![
        (UniquePubkey(9), conflict()),
        (UniquePubkey(4), Ok(())),
        (UniquePubkey(7), transport_failure()),
        (UniquePubkey(2), split()),
        (UniquePubkey(9), split()),
    ];
    let r = send_spends_outcome(&outcomes);
    // The double-spend error names exactly the conflicting keys, ascending
    // and without duplicates, never the generic error.
    assert_eq!(
        r,
        Err(SendSpendsError::DoubleSpendAttemptedForCashNotes(vec![
            UniquePubkey(2),
            UniquePubkey(9),
        ]))
    );
}

#[test]
fn generic_failures_are_reported_only_without_conflicts() {
    let outcomes = vec![
        (UniquePubkey(9), Ok(())),
        (UniquePubkey(7), transport_failure()),
        (UniquePubkey(4), transport_failure()),
    ];
    let r = send_spends_outcome(&outcomes);
    assert_eq!(
        r,
        Err(SendSpendsError::CouldNotSendMoney(vec![
            UniquePubkey(7),
            UniquePubkey(4),
        ]))
    );
}

#[test]
fn settlement_succeeds_when_every_spend_is_accepted() {
    let outcomes = vec![(UniquePubkey(1), Ok(())), (UniquePubkey(2), Ok(()))];
    assert_eq!(send_spends_outcome(&outcomes), Ok(()));
    assert_eq!(send_spends_outcome(&Vec::new()), Ok(()));
}

#[test]
fn cash_note_is_valid_only_when_its_spend_is_not_found() {
    let not_found: Result<SignedSpend, NetworkError> = Err(NetworkError::GetRecordError(
        GetRecordError::RecordNotFound,
    ));
    assert_eq!(verify_if_cash_note_is_valid(&not_found), Ok(()));

    let found: Result<SignedSpend, NetworkError> = Ok(SignedSpend {
        unique_pubkey: UniquePubkey(3),
        payload: vec![1],
    });
    assert_eq!(
        verify_if_cash_note_is_valid(&found),
        Err(CashNoteError::AlreadySpent)
    );

    let unknown: Result<SignedSpend, NetworkError> = Err(NetworkError::Transport);
    assert_eq!(
        verify_if_cash_note_is_valid(&unknown),
        Err(CashNoteError::FailedToGetSpend(NetworkError::Transport))
    );
}

#[test]
fn only_unspent_candidates_are_deposited() {
    let note = |k: u64| CashNote {
        unique_pubkey: UniquePubkey(k),
    };
    let not_found: Result<SignedSpend, NetworkError> = Err(NetworkError::GetRecordError(
        GetRecordError::RecordNotFound,
    ));
    let found: Result<SignedSpend, NetworkError> = Ok(SignedSpend {
        unique_pubkey: UniquePubkey(8),
        payload: vec![1],
    });
    let failed: Result<SignedSpend, NetworkError> = Err(NetworkError::Transport);
    let candidates = vec![
        (note(1), not_found.clone()),
        (note(8), found),
        (note(5), failed),
        (note(6), not_found),
    ];
    let accepted = select_valid_cash_notes(&candidates);
    assert_eq!(accepted, vec![UniquePubkey(1), UniquePubkey(6)]);
}

#[test]
fn spend_record_is_keyed_by_its_unique_key_and_framed_as_spend() {
    let spend = SignedSpend {
        unique_pubkey: UniquePubkey(77),
        payload: vec![10, 20, 30],
    };
    let record = prepare_spend_record(&spend);
    assert_eq!(record.key, NetworkAddress(77));
    assert_eq!(record.key, spend_address_from_unique_pubkey(&spend.unique_pubkey));
    assert_eq!(record.value, vec![0x91, 2, 10, 20, 30]);
}

#[test]
fn spend_put_is_persistent_majority_with_verification_reread() {
    assert!(VERIFY_STORE);
    let spend = SignedSpend {
        unique_pubkey: UniquePubkey(77),
        payload: vec![10],
    };
    let record = prepare_spend_record(&spend);
    let holders = vec![PeerId(1), PeerId(2)];
    let cfg = spend_put_cfg(Some(record.clone()), holders.clone());
    assert_eq!(cfg.put_quorum, Quorum::Majority);
    assert_eq!(cfg.retry_strategy, Some(RetryStrategy::Persistent));
    assert!(cfg.use_put_record_to.is_none());
    let (kind, verification) = cfg.verification.unwrap();
    assert_eq!(kind, VerificationKind::Network);
    assert_eq!(verification.get_quorum, Quorum::Majority);
    // The verification get retries never: the put itself already does.
    assert!(verification.retry_strategy.is_none());
    assert_eq!(verification.target_record, Some(record));
    assert_eq!(verification.expected_holders, holders);
    assert!(!verification.is_register);
}

#[test]
fn a_transfer_produces_exactly_one_output_note() {
    let note = CashNote {
        unique_pubkey: UniquePubkey(4),
    };
    assert_eq!(single_output_cash_note(&vec![note]), Ok(note));
    assert_eq!(
        single_output_cash_note(&vec![note, note]),
        Err(SendError::CashNoteAmountUnexpected(2))
    );
    assert_eq!(
        single_output_cash_note(&Vec::new()),
        Err(SendError::CashNoteAmountUnexpected(0))
    );
}
