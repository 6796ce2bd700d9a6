use remote_exec::handshake::authenticate;
use remote_exec::handshake::AuthError;
use remote_exec::handshake::AuthEvent;
use remote_exec::handshake::AuthPolicy;
use remote_exec::handshake::AuthStep;
use remote_exec::handshake::Challenge;
use remote_exec::handshake::Handshake;
use remote_exec::handshake::Prompt;
use remote_exec::handshake::Reply;
use remote_exec::handshake::Transcript;

fn policy(answers: &[&str], strict: bool) -> AuthPolicy {
    AuthPolicy { answers: answers.iter().map(|s| s.to_string()).collect(), strict }
}

fn host_verify() -> AuthEvent {
    AuthEvent::HostVerify("SSH host example:22 is not yet trusted.".to_string())
}

fn challenge() -> AuthEvent {
    AuthEvent::Authenticate(Challenge {
        username: "alice".to_string(),
        instructions: "Password authentication".to_string(),
        prompts: vec![Prompt { prompt: "Password: ".to_string(), echo: false }],
    })
}

fn banner(text: &str) -> AuthEvent {
    AuthEvent::Banner(Some(text.to_string()))
}

fn hunter2() -> Vec<String> {
    vec!["hunter2".to_string()]
}

#[test]
fn host_verify_then_authenticate_then_authenticated() {
    let record = authenticate(
        policy(&["hunter2"], true),
        vec![host_verify(), challenge(), AuthEvent::Authenticated],
        None,
    );
    assert_eq!(
        record,
        Transcript {
            outcome: Ok(()),
            replies: vec![Reply::TrustHost(true), Reply::Credentials(hunter2())],
            banners: vec![],
            consumed: 3,
        }
    );
}

#[test]
fn every_challenge_is_answered_once_and_in_order() {
    let record = authenticate(
        policy(&["one", "two"], true),
        vec![
            banner("welcome"),
            challenge(),
            host_verify(),
            AuthEvent::Banner(None),
            challenge(),
            banner("almost there"),
            AuthEvent::Authenticated,
        ],
        None,
    );
    let answers = vec!["one".to_string(), "two".to_string()];
    assert_eq!(record.outcome, Ok(()));
    assert_eq!(record.consumed, 7);
    assert_eq!(
        record.replies,
        vec![
            Reply::Credentials(answers.clone()),
            Reply::TrustHost(true),
            Reply::Credentials(answers),
        ]
    );
    assert_eq!(record.banners, vec!["welcome".to_string(), "almost there".to_string()]);
}

#[test]
fn authenticated_alone_succeeds() {
    let record = authenticate(policy(&[], true), vec![AuthEvent::Authenticated], None);
    assert_eq!(
        record,
        Transcript { outcome: Ok(()), replies: vec![], banners: vec![], consumed: 1 }
    );
}

#[test]
fn error_rejects_with_its_message() {
    let record = authenticate(
        policy(&["hunter2"], false),
        vec![host_verify(), AuthEvent::Error("permission denied".to_string())],
        None,
    );
    assert_eq!(record.outcome, Err(AuthError::Rejected("permission denied".to_string())));
    assert_eq!(record.consumed, 2);
    assert_eq!(record.replies, vec![Reply::TrustHost(true)]);
}

#[test]
fn nothing_is_consumed_after_an_error() {
    let record = authenticate(
        policy(&["hunter2"], true),
        vec![
            banner("hello"),
            AuthEvent::Error("no".to_string()),
            challenge(),
            banner("too late"),
            AuthEvent::Authenticated,
        ],
        None,
    );
    assert_eq!(
        record,
        Transcript {
            outcome: Err(AuthError::Rejected("no".to_string())),
            replies: vec![],
            banners: vec!["hello".to_string()],
            consumed: 2,
        }
    );
}

#[test]
fn nothing_is_consumed_after_the_completion() {
    let record = authenticate(
        policy(&["hunter2"], true),
        vec![AuthEvent::Authenticated, challenge(), AuthEvent::Error("late".to_string())],
        None,
    );
    assert_eq!(
        record,
        Transcript { outcome: Ok(()), replies: vec![], banners: vec![], consumed: 1 }
    );
}

#[test]
fn an_earlier_error_beats_a_final_completion() {
    let record = authenticate(
        policy(&[], true),
        vec![AuthEvent::Error("x".to_string()), AuthEvent::Authenticated],
        None,
    );
    assert_eq!(record.outcome, Err(AuthError::Rejected("x".to_string())));
    assert_eq!(record.consumed, 1);
}

#[test]
fn identical_sequences_give_identical_transcripts() {
    let events = vec![banner("b"), host_verify(), challenge(), AuthEvent::Authenticated];
    let first = authenticate(policy(&["pw"], true), events.clone(), None);
    let second = authenticate(policy(&["pw"], true), events, None);
    assert_eq!(first, second);
    let rejected = vec![challenge(), AuthEvent::Error("bad".to_string())];
    assert_eq!(
        authenticate(policy(&["pw"], false), rejected.clone(), None),
        authenticate(policy(&["pw"], false), rejected, None)
    );
}

#[test]
fn events_that_run_out_fail_a_strict_handshake() {
    let record = authenticate(policy(&["pw"], true), vec![host_verify(), challenge()], None);
    assert_eq!(record.outcome, Err(AuthError::IncompleteHandshake));
    assert_eq!(record.consumed, 2);
    assert_eq!(
        record.replies,
        vec![Reply::TrustHost(true), Reply::Credentials(vec!["pw".to_string()])]
    );
    let empty = authenticate(policy(&[], true), vec![], None);
    assert_eq!(
        empty,
        Transcript {
            outcome: Err(AuthError::IncompleteHandshake),
            replies: vec![],
            banners: vec![],
            consumed: 0,
        }
    );
}

#[test]
fn events_that_run_out_pass_a_lenient_handshake() {
    let record = authenticate(policy(&["pw"], false), vec![host_verify(), banner("motd")], None);
    assert_eq!(
        record,
        Transcript {
            outcome: Ok(()),
            replies: vec![Reply::TrustHost(true)],
            banners: vec!["motd".to_string()],
            consumed: 2,
        }
    );
    assert_eq!(authenticate(policy(&[], false), vec![], None).outcome, Ok(()));
}

#[test]
fn an_empty_answer_list_is_offered_as_it_is() {
    let record = authenticate(policy(&[], true), vec![challenge(), AuthEvent::Authenticated], None);
    assert_eq!(record.replies, vec![Reply::Credentials(vec![])]);
    assert_eq!(record.outcome, Ok(()));
}

#[test]
fn host_verification_is_answered_with_trust() {
    match Handshake::new(policy(&["pw"], true)).on_event(host_verify()) {
        AuthStep::TrustHost(_, trust) => assert!(trust),
        other => panic!("unexpected step {:?}", other),
    }
}

#[test]
fn authentication_is_answered_with_the_policy_answers() {
    match Handshake::new(policy(&["a", "b"], true)).on_event(challenge()) {
        AuthStep::Credentials(_, answers) => {
            assert_eq!(answers, vec!["a".to_string(), "b".to_string()])
        }
        other => panic!("unexpected step {:?}", other),
    }
}

#[test]
fn a_delivered_answer_lets_the_handshake_listen_again() {
    let pending = match Handshake::new(policy(&["pw"], true)).on_event(host_verify()) {
        AuthStep::TrustHost(pending, _) => pending,
        other => panic!("unexpected step {:?}", other),
    };
    let handshake = match pending.on_delivery(true) {
        AuthStep::Listen(handshake) => handshake,
        other => panic!("unexpected step {:?}", other),
    };
    match handshake.on_event(challenge()) {
        AuthStep::Credentials(pending, answers) => {
            assert_eq!(answers, vec!["pw".to_string()]);
            assert!(matches!(
                pending.delivered().on_event(AuthEvent::Authenticated),
                AuthStep::Done(Ok(()))
            ));
        }
        other => panic!("unexpected step {:?}", other),
    }
}

#[test]
fn an_undelivered_answer_is_a_transport_failure() {
    let pending = match Handshake::new(policy(&["pw"], true)).on_event(challenge()) {
        AuthStep::Credentials(pending, _) => pending,
        other => panic!("unexpected step {:?}", other),
    };
    match pending.on_delivery(false) {
        AuthStep::Done(verdict) => assert_eq!(verdict, Err(AuthError::TransportFailure)),
        other => panic!("unexpected step {:?}", other),
    }
    let pending = match Handshake::new(policy(&["pw"], false)).on_event(host_verify()) {
        AuthStep::TrustHost(pending, _) => pending,
        other => panic!("unexpected step {:?}", other),
    };
    assert!(matches!(
        pending.on_delivery(false),
        AuthStep::Done(Err(AuthError::TransportFailure))
    ));
}

#[test]
fn a_banner_with_text_is_shown_and_an_empty_one_is_not() {
    let start = Handshake::new(policy(&[], true));
    let handshake = match start.on_event(banner("Authorized use only")) {
        AuthStep::ShowBanner(handshake, text) => {
            assert_eq!(text, "Authorized use only");
            handshake
        }
        other => panic!("unexpected step {:?}", other),
    };
    assert!(matches!(handshake.on_event(AuthEvent::Banner(None)), AuthStep::Listen(_)));
}

#[test]
fn terminal_events_end_the_handshake() {
    match Handshake::new(policy(&[], true)).on_event(AuthEvent::Error("denied".to_string())) {
        AuthStep::Done(verdict) => {
            assert_eq!(verdict, Err(AuthError::Rejected("denied".to_string())))
        }
        other => panic!("unexpected step {:?}", other),
    }
    match Handshake::new(policy(&[], true)).on_event(AuthEvent::Authenticated) {
        AuthStep::Done(verdict) => assert_eq!(verdict, Ok(())),
        other => panic!("unexpected step {:?}", other),
    }
}

#[test]
fn a_closed_transport_ends_as_the_policy_says() {
    assert_eq!(
        Handshake::new(policy(&[], true)).on_closed(),
        Err(AuthError::IncompleteHandshake)
    );
    assert_eq!(Handshake::new(policy(&[], false)).on_closed(), Ok(()));
}

#[test]
fn a_lost_answer_is_a_transport_failure() {
    let record = authenticate(
        policy(&["pw"], false),
        vec![banner("hi"), host_verify(), challenge(), AuthEvent::Authenticated],
        Some(2),
    );
    assert_eq!(
        record,
        Transcript {
            outcome: Err(AuthError::TransportFailure),
            replies: vec![Reply::TrustHost(true), Reply::Credentials(vec!["pw".to_string()])],
            banners: vec!["hi".to_string()],
            consumed: 3,
        }
    );
    let record = authenticate(
        policy(&["pw"], true),
        vec![host_verify(), challenge(), AuthEvent::Authenticated],
        Some(0),
    );
    assert_eq!(
        record,
        Transcript {
            outcome: Err(AuthError::TransportFailure),
            replies: vec![Reply::TrustHost(true)],
            banners: vec![],
            consumed: 1,
        }
    );
}

#[test]
fn only_an_answer_can_be_lost() {
    let events = vec![banner("hi"), host_verify(), AuthEvent::Authenticated, challenge()];
    let undisturbed = authenticate(policy(&["pw"], true), events.clone(), None);
    assert_eq!(undisturbed.outcome, Ok(()));
    assert_eq!(authenticate(policy(&["pw"], true), events.clone(), Some(0)), undisturbed);
    assert_eq!(authenticate(policy(&["pw"], true), events.clone(), Some(2)), undisturbed);
    assert_eq!(authenticate(policy(&["pw"], true), events.clone(), Some(3)), undisturbed);
    assert_eq!(authenticate(policy(&["pw"], true), events, Some(17)), undisturbed);
}

#[test]
fn an_error_before_the_lost_answer_still_rejects() {
    let record = authenticate(
        policy(&["pw"], true),
        vec![AuthEvent::Error("denied".to_string()), challenge()],
        Some(1),
    );
    assert_eq!(record.outcome, Err(AuthError::Rejected("denied".to_string())));
    assert_eq!(record.consumed, 1);
}
