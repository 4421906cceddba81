use base64::Engine;
use registry_core::envelope::{key_id, Envelope};
use registry_core::hash::{AnyHash, HashAlg};
use registry_core::checkpoint::{MapCheckpoint, SignedCheckpoint};
use registry_core::publish::{
    wait_step, FollowUp, WaitStep, enqueue, CommonOptions, Enqueued, PublishAbortCommand, PublishCommand, PublishEntry,
    PublishError, PublishInfo, PublishInitCommand, PublishListCommand, PublishPlan,
    PublishReleaseCommand, PublishStartCommand, PublishSubmitCommand, PublishWaitCommand,
};
use registry_core::record::{Entry, LogKind, Record, Timestamp, Version};
use registry_core::service::RecordState;
use registry_core::validation::{decode_body, validate, validate_envelopes, PackageInfo, ProtoEnvelopeBody};
use registry_core::validator::{ReleaseState, Validator};

fn common() -> CommonOptions {
    CommonOptions { registry: None, key_name: "default".to_string() }
}

fn piece(byte: u8) -> AnyHash {
    AnyHash { alg: HashAlg::Sha256, bytes: vec![byte; 32] }
}

fn release_of(major: u64, byte: u8) -> PublishEntry {
    PublishEntry::Release { version: Version::new(major, 0, 0), content: piece(byte) }
}

fn pending(package: &str, entries: Vec<PublishEntry>) -> PublishInfo {
    PublishInfo { package: package.to_string(), head: None, entries }
}

fn stored(r: Result<Enqueued, PublishError>) -> PublishInfo {
    match r {
        Ok(Enqueued::Stored(info)) => info,
        _ => panic!("the entry should have joined the pending publish"),
    }
}

#[test]
fn entry_is_handed_back_when_nothing_is_pending() {
    match enqueue(None, "foo:bar", release_of(1, 1)) {
        Ok(Enqueued::Alone(entry)) => assert_eq!(entry, release_of(1, 1)),
        _ => panic!("the entry should be submitted alone"),
    }
}

#[test]
fn entry_joins_the_pending_publish_of_its_package() {
    let info = stored(enqueue(Some(pending("foo:bar", vec![PublishEntry::Init])), "foo:bar", release_of(1, 1)));
    assert_eq!(info, pending("foo:bar", vec![PublishEntry::Init, release_of(1, 1)]));
    let info = stored(enqueue(Some(info), "foo:bar", PublishEntry::Yank { version: Version::new(1, 0, 0) }));
    assert_eq!(info.entries.len(), 3);
    let info = stored(enqueue(Some(pending("foo:bar", vec![release_of(1, 1)])), "foo:bar", PublishEntry::Init));
    assert_eq!(info, pending("foo:bar", vec![release_of(1, 1), PublishEntry::Init]));
}

#[test]
fn entry_for_another_package_is_refused() {
    assert_eq!(
        enqueue(Some(pending("foo:bar", vec![])), "foo:baz", PublishEntry::Init).err(),
        Some(PublishError::PublishInProgress("foo:bar".to_string()))
    );
}

#[test]
fn second_initialisation_is_refused() {
    assert_eq!(
        enqueue(Some(pending("foo:bar", vec![release_of(1, 1), PublishEntry::Init])), "foo:bar", PublishEntry::Init)
            .err(),
        Some(PublishError::AlreadyInitializing("foo:bar".to_string()))
    );
    assert!(pending("foo:bar", vec![release_of(1, 1), PublishEntry::Init]).initializing());
    assert!(!pending("foo:bar", vec![release_of(1, 1)]).initializing());
    assert!(!PublishInfo::start("foo:bar").initializing());
    assert_eq!(PublishInfo::start("foo:bar"), pending("foo:bar", vec![]));
}

#[test]
fn init_command_submits_alone_or_joins() {
    let command = PublishInitCommand { common: common(), name: "foo:bar".to_string(), no_wait: false };
    assert_eq!(
        command.exec(None),
        Ok(PublishPlan::Submit {
            info: pending("foo:bar", vec![PublishEntry::Init]),
            key_name: "default".to_string(),
            clear_pending: false,
            wait: true,
        })
    );
    assert_eq!(
        command.exec(Some(pending("foo:bar", vec![]))),
        Ok(PublishPlan::Store { pending: pending("foo:bar", vec![PublishEntry::Init]) })
    );
    assert_eq!(
        command.exec(Some(pending("foo:bar", vec![PublishEntry::Init]))),
        Err(PublishError::AlreadyInitializing("foo:bar".to_string()))
    );
    assert_eq!(
        command.exec(Some(pending("other", vec![]))),
        Err(PublishError::PublishInProgress("other".to_string()))
    );
}

#[test]
fn release_command_submits_alone_or_joins() {
    let command = PublishReleaseCommand {
        common: common(),
        name: "foo:bar".to_string(),
        version: Version::new(1, 0, 0),
        path: "foo.wasm".to_string(),
        no_wait: true,
    };
    assert_eq!(command.check(&None), Ok(()));
    assert_eq!(command.check(&Some(pending("foo:bar", vec![]))), Ok(()));
    assert_eq!(
        command.check(&Some(pending("other", vec![]))),
        Err(PublishError::PublishInProgress("other".to_string()))
    );
    assert_eq!(
        command.exec(None, piece(1)),
        Ok(PublishPlan::Submit {
            info: pending("foo:bar", vec![release_of(1, 1)]),
            key_name: "default".to_string(),
            clear_pending: false,
            wait: false,
        })
    );
    assert_eq!(
        command.exec(Some(pending("foo:bar", vec![PublishEntry::Init])), piece(1)),
        Ok(PublishPlan::Store {
            pending: pending("foo:bar", vec![PublishEntry::Init, release_of(1, 1)])
        })
    );
    assert_eq!(
        command.exec(Some(pending("other", vec![])), piece(1)),
        Err(PublishError::PublishInProgress("other".to_string()))
    );
}

#[test]
fn start_list_abort_submit_and_wait_commands() {
    let start = PublishStartCommand { common: common(), name: "foo:bar".to_string() };
    assert_eq!(start.exec(None), Ok(PublishPlan::Store { pending: pending("foo:bar", vec![]) }));
    assert_eq!(
        start.exec(Some(pending("other", vec![]))),
        Err(PublishError::PublishInProgress("other".to_string()))
    );
    let list = PublishListCommand { common: common() };
    assert_eq!(list.exec(None), Err(PublishError::NoPendingPublish));
    assert_eq!(
        list.exec(Some(pending("foo:bar", vec![release_of(1, 1)]))),
        Ok(PublishPlan::List { info: pending("foo:bar", vec![release_of(1, 1)]) })
    );
    let abort = PublishAbortCommand { common: common() };
    assert_eq!(abort.exec(None), Err(PublishError::NoPendingPublish));
    assert_eq!(
        abort.exec(Some(pending("foo:bar", vec![]))),
        Ok(PublishPlan::Clear { package: "foo:bar".to_string() })
    );
    let submit = PublishSubmitCommand { common: common(), no_wait: false };
    assert_eq!(submit.exec(None), Err(PublishError::NoPendingPublish));
    assert_eq!(
        submit.exec(Some(pending("foo:bar", vec![PublishEntry::Init]))),
        Ok(PublishPlan::Submit {
            info: pending("foo:bar", vec![PublishEntry::Init]),
            key_name: "default".to_string(),
            clear_pending: true,
            wait: true,
        })
    );
    let wait = PublishWaitCommand { common: common(), package: "foo:bar".to_string(), record_id: piece(7) };
    assert_eq!(
        wait.exec(),
        PublishPlan::Wait { package: "foo:bar".to_string(), record_id: piece(7) }
    );
    assert_eq!(
        PublishCommand::Wait(wait.clone()).exec(None, piece(0)),
        Ok(wait.exec())
    );
    assert_eq!(PublishCommand::Start(start.clone()).exec(None, piece(0)), start.exec(None));
    assert_eq!(PublishCommand::List(list).exec(None, piece(0)), Err(PublishError::NoPendingPublish));
    assert_eq!(PublishCommand::Abort(abort).exec(None, piece(0)), Err(PublishError::NoPendingPublish));
    assert_eq!(PublishCommand::Submit(submit).exec(None, piece(0)), Err(PublishError::NoPendingPublish));
    let init = PublishInitCommand { common: common(), name: "foo:bar".to_string(), no_wait: true };
    assert_eq!(PublishCommand::Init(init.clone()).exec(None, piece(0)), init.exec(None));
    let release = PublishReleaseCommand {
        common: common(),
        name: "foo:bar".to_string(),
        version: Version::new(2, 0, 0),
        path: "x".to_string(),
        no_wait: true,
    };
    assert_eq!(
        PublishCommand::Release(release.clone()).exec(None, piece(3)),
        release.exec(None, piece(3))
    );
}

#[test]
fn pending_publish_becomes_one_signed_record() {
    let (public, private) = warg_crypto::signing::generate_p256_pair();
    let key = public.to_string().into_bytes();
    let info = PublishInfo {
        package: "foo:bar".to_string(),
        head: None,
        entries: vec![
            PublishEntry::Init,
            release_of(1, 1),
            PublishEntry::Yank { version: Version::new(1, 0, 0) },
        ],
    };
    let stamp = Timestamp { secs: 5, nanos: 6 };
    let record = info.to_record(HashAlg::Sha256, &key, stamp);
    assert_eq!(
        record,
        Record {
            prev: None,
            version: 0,
            timestamp: stamp,
            entries: vec![
                Entry::Init { hash_alg: HashAlg::Sha256, key: key.clone() },
                Entry::Release { version: Version::new(1, 0, 0), content: piece(1) },
                Entry::Yank { version: Version::new(1, 0, 0) },
            ],
        }
    );
    let envelope = info.sign(HashAlg::Sha256, private.encode().as_bytes(), stamp).unwrap();
    assert_eq!(envelope.record(), Some((LogKind::Package, record)));
    assert_eq!(envelope.key_id(), &key_id(&key));
    let mut validator = Validator::new(LogKind::Package);
    assert_eq!(validator.validate(&envelope), Ok(vec![piece(1)]));
    assert_eq!(
        validator.release(&Version::new(1, 0, 0)),
        Some(&ReleaseState::Yanked(piece(1)))
    );
    let next = PublishInfo {
        package: "foo:bar".to_string(),
        head: Some(envelope.record_id(HashAlg::Sha256)),
        entries: vec![release_of(2, 2)],
    };
    let second = next.sign(HashAlg::Sha256, private.encode().as_bytes(), stamp).unwrap();
    assert_eq!(validator.validate(&second), Ok(vec![piece(2)]));
    assert!(info.sign(HashAlg::Sha256, b"no key", stamp).is_none());
}

fn body_of(envelope: &Envelope) -> ProtoEnvelopeBody {
    ProtoEnvelopeBody {
        content_bytes: base64::engine::general_purpose::STANDARD.encode(envelope.content()),
        key_id: envelope.key_id().to_text(),
        signature: String::from_utf8(envelope.signature().clone()).unwrap(),
    }
}

#[test]
fn component_validates_records_in_order() {
    let (_, private) = warg_crypto::signing::generate_p256_pair();
    let key = private.encode().to_string();
    let stamp = Timestamp { secs: 5, nanos: 0 };
    let genesis = PublishInfo::start("foo:bar");
    let genesis = PublishInfo { entries: vec![PublishEntry::Init], ..genesis };
    let first = genesis.sign(HashAlg::Sha256, key.as_bytes(), stamp).unwrap();
    let head = Some(first.record_id(HashAlg::Sha256));
    let second = PublishInfo { package: "foo:bar".to_string(), head: head.clone(), entries: vec![release_of(1, 1)] }
        .sign(HashAlg::Sha256, key.as_bytes(), stamp)
        .unwrap();
    let stale = PublishInfo { package: "foo:bar".to_string(), head, entries: vec![release_of(2, 2)] }
        .sign(HashAlg::Sha256, key.as_bytes(), stamp)
        .unwrap();
    let third = PublishInfo {
        package: "foo:bar".to_string(),
        head: Some(second.record_id(HashAlg::Sha256)),
        entries: vec![release_of(3, 3)],
    }
    .sign(HashAlg::Sha256, key.as_bytes(), stamp)
    .unwrap();
    assert_eq!(decode_body(&body_of(&first)), Some(first.clone()));
    assert_eq!(
        validate(vec![body_of(&first), body_of(&second), body_of(&stale), body_of(&third)]),
        Ok(vec![true, true, false, true])
    );
    assert_eq!(validate(vec![body_of(&second), body_of(&first)]), Ok(vec![false, true]));
    assert_eq!(validate(vec![]), Ok(vec![]));
    assert_eq!(
        validate_envelopes(&vec![first.clone(), first.clone(), second.clone()]),
        vec![true, false, true]
    );
    let mut not_base64 = body_of(&second);
    not_base64.content_bytes = "***".to_string();
    assert_eq!(validate(vec![body_of(&first), not_base64.clone()]), Err(()));
    assert_eq!(decode_body(&not_base64), None);
    let mut no_hash = body_of(&second);
    no_hash.key_id = "nothing".to_string();
    assert_eq!(validate(vec![no_hash.clone()]), Ok(vec![false]));
    assert_eq!(
        validate(vec![body_of(&first), no_hash.clone(), body_of(&second)]),
        Ok(vec![true, false, true])
    );
    assert_eq!(validate(vec![no_hash, not_base64.clone()]), Err(()));
    assert_eq!(decode_body(&ProtoEnvelopeBody {
        content_bytes: body_of(&second).content_bytes,
        key_id: "sha256:zz".to_string(),
        signature: String::new(),
    }), None);
    let mut unsigned = body_of(&second);
    unsigned.signature = "nothing".to_string();
    assert_eq!(validate(vec![body_of(&first), unsigned]), Ok(vec![true, false]));
}

#[test]
fn package_info_starts_with_an_empty_validator() {
    let info = PackageInfo::new("foo:bar");
    assert_eq!(info.name, "foo:bar");
    assert_eq!(info.checkpoint, None);
    assert!(info.state.head().is_none());
    assert_eq!(info.state.kind(), LogKind::Package);
    assert_eq!(info.state.algorithm(), HashAlg::Sha256);
}

#[test]
fn waiting_ends_when_the_record_is_published_or_rejected() {
    let checkpoint = SignedCheckpoint {
        checkpoint: MapCheckpoint { log_root: piece(1), map_root: piece(2), log_length: 1 },
        key_id: piece(3),
        signature: vec![],
    };
    assert_eq!(wait_step(&RecordState::Processing), WaitStep::Again);
    assert_eq!(wait_step(&RecordState::Published { checkpoint }), WaitStep::Done);
    assert_eq!(
        wait_step(&RecordState::Rejected { reason: "no".to_string() }),
        WaitStep::Failed("no".to_string())
    );
}

#[test]
fn contents_are_the_digests_of_the_releases_in_order() {
    let info = pending(
        "foo:bar",
        vec![
            PublishEntry::Init,
            release_of(1, 7),
            PublishEntry::Yank { version: Version::new(1, 0, 0) },
            release_of(2, 5),
            release_of(3, 7),
        ],
    );
    assert_eq!(info.contents(), vec![piece(7), piece(5), piece(7)]);
    assert_eq!(pending("foo:bar", vec![PublishEntry::Init]).contents(), vec![]);
}

#[test]
fn signing_a_publish_is_signing_its_record() {
    let (public, private) = warg_crypto::signing::generate_p256_pair();
    let key = private.encode().to_string();
    let info = pending("foo:bar", vec![PublishEntry::Init, release_of(1, 1)]);
    let stamp = Timestamp { secs: 8, nanos: 9 };
    let record = info.to_record(HashAlg::Sha512, &public.to_string().into_bytes(), stamp);
    assert_eq!(
        info.sign(HashAlg::Sha512, key.as_bytes(), stamp),
        Envelope::signed(LogKind::Package, &record, key.as_bytes())
    );
    assert_eq!(
        info.sign(HashAlg::Sha512, key.as_bytes(), stamp),
        info.sign(HashAlg::Sha512, key.as_bytes(), stamp)
    );
    assert_eq!(info.sign(HashAlg::Sha512, b"junk", stamp), None);
}

#[test]
fn pending_publish_is_cleared_before_the_record_is_waited_for() {
    let info = pending("foo:bar", vec![PublishEntry::Init]);
    let submit = |clear_pending, wait| PublishPlan::Submit {
        info: info.clone(),
        key_name: "default".to_string(),
        clear_pending,
        wait,
    };
    assert_eq!(
        submit(true, true).follow_up(&piece(7)),
        vec![
            FollowUp::ClearPending,
            FollowUp::Wait { package: "foo:bar".to_string(), record_id: piece(7) }
        ]
    );
    assert_eq!(
        submit(true, false).follow_up(&piece(7)),
        vec![FollowUp::ClearPending, FollowUp::Report { record_id: piece(7) }]
    );
    assert_eq!(
        submit(false, true).follow_up(&piece(7)),
        vec![FollowUp::Wait { package: "foo:bar".to_string(), record_id: piece(7) }]
    );
    assert_eq!(
        submit(false, false).follow_up(&piece(7)),
        vec![FollowUp::Report { record_id: piece(7) }]
    );
    assert_eq!(PublishPlan::Store { pending: info.clone() }.follow_up(&piece(7)), vec![]);
    assert_eq!(PublishPlan::List { info }.follow_up(&piece(7)), vec![]);
    assert_eq!(PublishPlan::Clear { package: "x".to_string() }.follow_up(&piece(7)), vec![]);
}
