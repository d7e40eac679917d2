use sn_replication::address::{NetworkAddress, PeerId};
use sn_replication::cli::{
    is_running_as_root, parse_address_hex, validate_peer_id_and_service_name_args, AddrParseError,
    ArgsError, FilesCmds,
};
use sn_replication::fetcher::{
    accept_fetched_record, record_from_direct_reply, replication_fetch_cfg, ReplicationFetcher,
};
use sn_replication::header::{try_serialize_record, Error, Record, RecordKind};
use sn_replication::msg::{
    get_replicated_record_request, handle_msg, replicate_request, Cmd, CmdResponse, Msg,
    MsgAction, MsgEvent, PendingRequests, Query, QueryResponse, Request, Response,
};
use sn_replication::transport::{
    evaluate_get_responses, quorum_satisfied, GetRecordError, NetworkError, Quorum,
};

#[test]
fn quorum_thresholds_are_exact() {
    assert!(!quorum_satisfied(&Quorum::One, 0, 5));
    assert!(quorum_satisfied(&Quorum::One, 1, 5));

    assert!(!quorum_satisfied(&Quorum::Majority, 2, 4));
    assert!(quorum_satisfied(&Quorum::Majority, 3, 4));
    assert!(quorum_satisfied(&Quorum::Majority, 3, 5));
    assert!(!quorum_satisfied(&Quorum::Majority, 2, 5));

    assert!(quorum_satisfied(&Quorum::All, 5, 5));
    assert!(!quorum_satisfied(&Quorum::All, 4, 5));
    assert!(!quorum_satisfied(&Quorum::All, 0, 0));
}

fn record(key: u64, bytes: &[u8]) -> Record {
    Record {
        key: NetworkAddress(key),
        value: bytes.to_vec(),
    }
}

#[test]
fn get_with_no_responses_is_not_found() {
    assert_eq!(
        evaluate_get_responses(Vec::new(), 5, &Quorum::Majority, None),
        Err(GetRecordError::RecordNotFound)
    );
}

#[test]
fn disagreeing_responses_are_a_split_record_conflict() {
    let rs = vec![record(1, b"x"), record(1, b"y")];
    assert_eq!(
        evaluate_get_responses(rs, 5, &Quorum::One, None),
        Err(GetRecordError::SplitRecord)
    );
}

#[test]
fn a_response_differing_from_the_expected_record_is_a_conflict() {
    let rs = vec![record(1, b"x"), record(1, b"x")];
    let expected = record(1, b"y");
    assert_eq!(
        evaluate_get_responses(rs, 2, &Quorum::One, Some(&expected)),
        Err(GetRecordError::RecordDoesNotMatch)
    );
}

#[test]
fn too_few_agreeing_responses_miss_quorum() {
    let rs = vec![record(1, b"x"), record(1, b"x")];
    assert_eq!(
        evaluate_get_responses(rs, 5, &Quorum::Majority, None),
        Err(GetRecordError::QuorumNotReached)
    );
}

#[test]
fn agreeing_responses_at_quorum_return_the_record() {
    let rs = vec![record(1, b"x"), record(1, b"x"), record(1, b"x")];
    assert_eq!(
        evaluate_get_responses(rs, 5, &Quorum::Majority, None),
        Ok(record(1, b"x"))
    );
}

#[test]
fn received_requests_are_handed_to_the_upper_layers() {
    let mut pending = PendingRequests::new();
    let request = get_replicated_record_request(NetworkAddress(1), NetworkAddress(2));
    let event = MsgEvent::Message(Msg::Request {
        request_id: 7,
        request,
    });
    let action = handle_msg(event, &mut pending).unwrap();
    match action {
        MsgAction::EmitRequestReceived(Request::Query(Query::GetReplicatedRecord {
            requester,
            key,
        })) => {
            assert_eq!(requester, NetworkAddress(1));
            assert_eq!(key, NetworkAddress(2));
        }
        _ => panic!("request was not emitted"),
    }
}

fn replicate_ok_response() -> Response {
    Response::Cmd(CmdResponse::Replicate(Ok(())))
}

#[test]
fn awaited_responses_wake_their_caller() {
    let mut pending = PendingRequests::new();
    assert!(pending.register(7, true));
    let event = MsgEvent::Message(Msg::Response {
        request_id: 7,
        response: replicate_ok_response(),
    });
    let action = handle_msg(event, &mut pending).unwrap();
    assert!(matches!(
        action,
        MsgAction::ForwardResponse { request_id: 7, .. }
    ));
}

#[test]
fn unawaited_responses_become_events() {
    let mut pending = PendingRequests::new();
    assert!(pending.register(7, false));
    let event = MsgEvent::Message(Msg::Response {
        request_id: 7,
        response: replicate_ok_response(),
    });
    let action = handle_msg(event, &mut pending).unwrap();
    assert!(matches!(action, MsgAction::EmitResponseReceived(_)));
}

#[test]
fn unknown_response_ids_are_dropped() {
    let mut pending = PendingRequests::new();
    let event = MsgEvent::Message(Msg::Response {
        request_id: 7,
        response: replicate_ok_response(),
    });
    let action = handle_msg(event, &mut pending).unwrap();
    assert!(matches!(action, MsgAction::NoAction));
}

#[test]
fn outbound_failures_wake_the_awaiting_caller_or_error() {
    let mut pending = PendingRequests::new();
    assert!(pending.register(7, true));
    let action = handle_msg(
        MsgEvent::OutboundFailure {
            request_id: 7,
            error: NetworkError::Transport,
        },
        &mut pending,
    )
    .unwrap();
    assert!(matches!(
        action,
        MsgAction::ForwardFailure { request_id: 7, .. }
    ));

    let err = handle_msg(
        MsgEvent::OutboundFailure {
            request_id: 9,
            error: NetworkError::Transport,
        },
        &mut pending,
    )
    .unwrap_err();
    assert_eq!(err, NetworkError::ReceivedResponseDropped(9));
}

#[test]
fn duplicate_request_ids_are_not_registered() {
    let mut pending = PendingRequests::new();
    assert!(pending.register(7, true));
    assert!(!pending.register(7, false));
    assert_eq!(pending.remove(7), Some(true));
    assert_eq!(pending.remove(7), None);
}

#[test]
fn replicate_notice_carries_holder_and_keys() {
    let keys = vec![NetworkAddress(1), NetworkAddress(2)];
    let request = replicate_request(NetworkAddress(9), keys.clone());
    match request {
        Request::Cmd(Cmd::Replicate { holder, keys: ks }) => {
            assert_eq!(holder, NetworkAddress(9));
            assert_eq!(ks, keys);
        }
        _ => panic!("not a replicate notice"),
    }
}

#[test]
fn fetcher_queues_each_pair_once_and_drains_all() {
    let mut fetcher = ReplicationFetcher::new();
    let keys = vec![NetworkAddress(1), NetworkAddress(2), NetworkAddress(1)];
    fetcher.add_keys(PeerId(5), &keys);
    fetcher.add_keys(PeerId(5), &vec![NetworkAddress(2), NetworkAddress(3)]);
    fetcher.add_keys(PeerId(6), &vec![NetworkAddress(1)]);
    let pairs = fetcher.drain();
    assert_eq!(
        pairs,
        vec![
            (PeerId(5), NetworkAddress(1)),
            (PeerId(5), NetworkAddress(2)),
            (PeerId(5), NetworkAddress(3)),
            (PeerId(6), NetworkAddress(1)),
        ]
    );
    assert!(fetcher.drain().is_empty());
}

#[test]
fn a_direct_reply_yields_a_record_only_on_success() {
    let key = NetworkAddress(3);
    let good: Result<Response, NetworkError> = Ok(Response::Query(
        QueryResponse::GetReplicatedRecord(Ok((NetworkAddress(8), vec![0x91, 0, 5]))),
    ));
    let rec = record_from_direct_reply(key, &good).unwrap();
    assert_eq!(rec.key, key);
    assert_eq!(rec.value, vec![0x91, 0, 5]);

    let refused: Result<Response, NetworkError> = Ok(Response::Query(
        QueryResponse::GetReplicatedRecord(Err(NetworkError::Transport)),
    ));
    assert!(record_from_direct_reply(key, &refused).is_none());

    let other: Result<Response, NetworkError> = Ok(replicate_ok_response());
    assert!(record_from_direct_reply(key, &other).is_none());

    let failed: Result<Response, NetworkError> = Err(NetworkError::Transport);
    assert!(record_from_direct_reply(key, &failed).is_none());
}

#[test]
fn fallback_fetch_uses_majority_quorum_without_retry() {
    let cfg = replication_fetch_cfg();
    assert_eq!(cfg.get_quorum, Quorum::Majority);
    assert!(cfg.retry_strategy.is_none());
    assert!(cfg.target_record.is_none());
    assert!(cfg.expected_holders.is_empty());
    assert!(!cfg.is_register);
}

#[test]
fn fetched_records_must_pass_the_framing_check() {
    let value = try_serialize_record(&vec![1, 2], RecordKind::Register).unwrap();
    let good = Record {
        key: NetworkAddress(1),
        value,
    };
    assert_eq!(accept_fetched_record(&good), Ok(RecordKind::Register));

    let bad = Record {
        key: NetworkAddress(1),
        value: vec![0, 0, 0],
    };
    assert_eq!(
        accept_fetched_record(&bad),
        Err(Error::RecordHeaderParsingFailed)
    );
}

#[test]
fn addresses_parse_from_sixteen_hex_digits() {
    assert_eq!(
        parse_address_hex("00000000000000ff"),
        Ok(NetworkAddress(255))
    );
    assert_eq!(
        parse_address_hex("000000000000DEAD"),
        Ok(NetworkAddress(0xDEAD))
    );
    assert_eq!(
        parse_address_hex("ffffffffffffffff"),
        Ok(NetworkAddress(u64::MAX))
    );
    assert_eq!(parse_address_hex("abc"), Err(AddrParseError::WrongLength));
    assert_eq!(
        parse_address_hex("00000000000000zz"),
        Err(AddrParseError::NotHex)
    );
}

#[test]
fn peer_id_and_service_name_are_mutually_exclusive() {
    assert_eq!(
        validate_peer_id_and_service_name_args(Some("safenode1".to_string()), None),
        Ok(())
    );
    assert_eq!(
        validate_peer_id_and_service_name_args(None, Some("12D3KooW".to_string())),
        Ok(())
    );
    assert_eq!(validate_peer_id_and_service_name_args(None, None), Ok(()));
    assert_eq!(
        validate_peer_id_and_service_name_args(
            Some("safenode1".to_string()),
            Some("12D3KooW".to_string())
        ),
        Err(ArgsError::PeerIdAndServiceNameMutuallyExclusive)
    );
}

#[test]
fn file_commands_carry_their_arguments() {
    let upload = FilesCmds::Upload {
        path: "some/dir".to_string(),
    };
    match upload {
        FilesCmds::Upload { path } => assert_eq!(path, "some/dir"),
        _ => panic!("not an upload"),
    }
    let download = FilesCmds::Download {
        file_name: Some("file.txt".to_string()),
        file_addr: Some("00000000000000ff".to_string()),
    };
    match download {
        FilesCmds::Download {
            file_name,
            file_addr,
        } => {
            assert_eq!(file_name.as_deref(), Some("file.txt"));
            assert_eq!(
                parse_address_hex(file_addr.as_deref().unwrap()),
                Ok(NetworkAddress(255))
            );
        }
        _ => panic!("not a download"),
    }
    // The privilege check runs in whatever environment the tests run in;
    // only its stability is observable here.
    assert_eq!(is_running_as_root(), is_running_as_root());
}
