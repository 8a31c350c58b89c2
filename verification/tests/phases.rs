use ed25519_dalek::SigningKey;
use tspa::accounts::recover_account;
use tspa::benchmark::{fixture, invoke};
use tspa::client::{setup_requests, SetupRandomness};
use tspa::crypto;
use tspa::flow::{Progress, Stage, Step};
use tspa::messages::{
    LsRequest, Phase, Protocol, Reply, Request, Response, Result, UpRequest, ACCOUNT_LEN,
};
use tspa::random::{rand_bytes, random_scalars, Rng};
use tspa::stage::{expired, Collector, Policy};
use tspa::system::{account_context, IdentifiedState, Requirement, StageSample, System, Trace};
use tspa::trace::{record_call, refused_by_login_server};
use tspa::transport::{refused, InMemoryTransport, Node, Packet, Target};

const NOW: u64 = 1_700_000_000_000;

/// A client with nodes that are called in place, one after the other.
struct Client {
    system: System,
    memory: InMemoryTransport,
    trace: Trace,
    fail_prepare: bool,
    fail_identify: bool,
    lose_ls_reply: bool,
    lose_ls_request: bool,
    lose_probes: usize,
    fail_store_count: usize,
    slow_provider: bool,
    ended_before_slow: bool,
}

fn client(n: usize, t: usize, seed: u8) -> Client {
    Client {
        system: System::new(n, t, [seed; 32]).unwrap(),
        memory: InMemoryTransport::new(n, 300000),
        trace: Trace::default(),
        fail_prepare: false,
        fail_identify: false,
        lose_ls_reply: false,
        lose_ls_request: false,
        lose_probes: 0,
        fail_store_count: 0,
        slow_provider: false,
        ended_before_slow: false,
    }
}

impl Client {
    fn call(&mut self, target: Target, request: Request) -> Result<Packet> {
        let injected = target == Target::Provider(3)
            && ((self.fail_prepare
                && matches!(request, Request::Up(UpRequest::PrepareAccount { .. })))
                || (self.fail_identify
                    && matches!(request, Request::Up(UpRequest::Identify { .. }))));
        if injected {
            return Ok(packet(Err("injected provider failure".into())));
        }
        if self.lose_ls_request
            && matches!(request, Request::Ls(LsRequest::ChangeCredential { .. }))
        {
            return Err("injected lost request".into());
        }
        let mut lost = false;
        if self.lose_ls_reply
            && matches!(request, Request::Ls(LsRequest::ChangeCredential { .. }))
        {
            self.lose_ls_reply = false;
            lost = true;
        }
        if self.lose_probes > 0 && matches!(request, Request::Ls(LsRequest::Authenticate { .. })) {
            self.lose_probes -= 1;
            lost = true;
        }
        if target == Target::Provider(3)
            && self.fail_store_count > 0
            && matches!(request, Request::Up(UpRequest::Finalize { store: true, .. }))
        {
            self.fail_store_count -= 1;
            lost = true;
        }
        let result = self.memory.call(target, request, NOW);
        if lost {
            return Err("injected lost acknowledgement after processing".into());
        }
        Ok(packet(result))
    }

    fn stage(&mut self, stage: Stage) -> Result<Vec<(u32, Reply)>> {
        let stage_id = self.trace.stages.len();
        let name = stage.kind.name();
        let count = stage.requests.len();
        let mut requests = stage.requests;
        if self.slow_provider && name == "identification" {
            let slow = requests.remove(2);
            requests.push(slow);
        }
        let mut collector = Collector::new(stage.policy, count).unwrap();
        let mut end = collector.poll();
        for (target, request) in requests {
            if target == Target::Provider(3) && name == "identification" {
                self.ended_before_slow = end.is_some();
            }
            let operation = request.operation();
            let packet = self.call(target, request);
            let (result, sample) = record_call(stage_id, target, operation, packet);
            self.trace.calls.push(sample);
            if end.is_none() {
                end = collector.receive(target, result);
            }
        }
        self.trace.stages.push(StageSample {
            stage_id,
            stage: name.to_string(),
            elapsed_ns: 0,
            requests: count,
        });
        end.unwrap_or_else(expired)
    }

    fn finish(&mut self, mut step: Step) -> (Result<()>, Option<IdentifiedState>) {
        loop {
            match step {
                Step::Done(result) => return (result, None),
                Step::Identified(Ok(state)) => return (Ok(()), Some(state)),
                Step::Identified(Err(error)) => return (Err(error), None),
                Step::Run(stage, progress) => {
                    let stage_id = self.trace.stages.len();
                    let end = self.stage(stage);
                    step = self.system.advance(progress, end, &self.trace.calls, stage_id, NOW);
                }
            }
        }
    }

    fn setup(&mut self, uid: &[u8], password: &[u8]) -> Result<()> {
        let step = self.system.setup(uid, password);
        self.finish(step).0
    }

    fn identification(
        &mut self,
        uid: &[u8],
        password: &[u8],
        requirement: Requirement,
    ) -> Result<IdentifiedState> {
        let step = self.system.identification(uid, password, requirement);
        let (result, state) = self.finish(step);
        result.map(|_| state.unwrap())
    }

    fn registration(&mut self, uid: &[u8], password: &[u8], ls: &[u8], login: &[u8]) -> Result<()> {
        let step = self.system.registration(uid, password, ls, login);
        self.finish(step).0
    }

    fn secret_update(&mut self, uid: &[u8], password: &[u8], ls: &[u8], login: &[u8]) -> Result<()> {
        let step = self.system.secret_update(uid, password, ls, login);
        self.finish(step).0
    }

    fn authentication(&mut self, uid: &[u8], password: &[u8], ls: &[u8], login: &[u8]) -> Result<()> {
        let step = self.system.authentication(uid, password, ls, login);
        self.finish(step).0
    }

    fn password_update(&mut self, uid: &[u8], old: &[u8], new: &[u8]) -> Result<()> {
        let step = self.system.password_update(uid, old, new);
        self.finish(step).0
    }

    fn tspa_registration(&mut self, uid: &[u8], password: &[u8], ls: &[u8], login: &[u8]) -> Result<()> {
        let step = self.system.tspa_registration(uid, password, ls, login);
        self.finish(step).0
    }

    fn tspa_authentication(&mut self, uid: &[u8], password: &[u8], ls: &[u8], login: &[u8]) -> Result<()> {
        let step = self.system.tspa_authentication(uid, password, ls, login);
        self.finish(step).0
    }

    fn resume(&mut self) -> Result<()> {
        let step = self.system.resume_finalization();
        self.finish(step).0
    }

    fn reset(&mut self) -> Result<()> {
        let requests = self.system.reset_requests();
        let responses =
            requests.into_iter().map(|(target, request)| self.memory.call(target, request, NOW));
        let responses: Vec<_> = responses.collect();
        self.system.reset(responses)
    }

    fn account(&mut self) {
        self.setup(b"alice", b"pwd").unwrap();
        self.registration(b"alice", b"pwd", b"LS1", b"stable").unwrap();
    }

    fn stages(&self) -> Vec<&str> {
        self.trace.stages.iter().map(|s| s.stage.as_str()).collect()
    }

    fn operations(&self, name: &str) -> usize {
        self.trace.calls.iter().filter(|c| c.operation == name).count()
    }

    fn nothing_pending(&self) {
        for (_, node) in &self.memory.nodes {
            if let Node::Provider { upspa, .. } = node {
                assert!(upspa.pending.is_empty());
            }
        }
    }
}

fn packet(result: Result<Reply>) -> Packet {
    Packet {
        response: Response { result, processing_ns: 0 },
        bytes_sent: 0,
        bytes_received: 0,
    }
}

fn recovery_client() -> Client {
    let mut client = client(3, 2, 11);
    client.account();
    client.trace = Trace::default();
    client
}

#[test]
fn all_five_phases_and_password_change_work() {
    let mut sys = client(3, 2, 5);
    sys.account();
    sys.authentication(b"alice", b"pwd", b"LS1", b"stable").unwrap();
    sys.secret_update(b"alice", b"pwd", b"LS1", b"stable").unwrap();
    sys.authentication(b"alice", b"pwd", b"LS1", b"stable").unwrap();
    sys.password_update(b"alice", b"pwd", b"new").unwrap();
    assert!(sys.authentication(b"alice", b"pwd", b"LS1", b"stable").is_err());
    sys.authentication(b"alice", b"new", b"LS1", b"stable").unwrap();
}

#[test]
fn identification_does_not_compare_provider_svk() {
    let mut sys = client(3, 2, 5);
    sys.setup(b"alice", b"pwd").unwrap();
    for (i, (_, node)) in sys.memory.nodes.iter_mut().enumerate() {
        if let Node::Provider { upspa, .. } = node {
            let mut root = upspa.roots.get(&b"alice".to_vec()).unwrap().clone();
            root.svk = SigningKey::from_bytes(&[i as u8 + 1; 32]).verifying_key().to_bytes();
            upspa.roots.insert(b"alice".to_vec(), root);
        }
    }
    sys.identification(b"alice", b"pwd", Requirement::AllProviders).unwrap();
}

#[test]
fn a_single_larger_account_counter_cannot_win() {
    let mut sys = client(3, 2, 5);
    sys.account();
    let state = sys.identification(b"alice", b"pwd", Requirement::AllProviders).unwrap();
    let mut plaintext = [99; ACCOUNT_LEN];
    plaintext[32..].copy_from_slice(&99999u64.to_le_bytes());
    let ciphertext = crypto::xchacha_encrypt_detached(
        &state.k0,
        &account_context(b"alice", b"LS1"),
        &plaintext,
        &mut Rng::from_seed([1; 32]),
    )
    .encode();
    if let Node::Provider { upspa, .. } = &mut sys.memory.nodes[2].1 {
        upspa.accounts.insert(crypto::hash_upspa_suid(&state.rsp, b"LS1", 3), ciphertext);
    }
    sys.authentication(b"alice", b"pwd", b"LS1", b"stable").unwrap();
}

#[test]
fn secret_update_failure_before_ls_preserves_old_state_and_writes_need_all_providers() {
    let mut sys = client(3, 2, 5);
    sys.account();
    sys.fail_prepare = true;
    sys.trace = Trace::default();
    assert!(sys.secret_update(b"alice", b"pwd", b"LS1", b"stable").is_err());
    assert!(!sys.trace.calls.iter().any(|c| c.operation == "ls_change_credential"));
    sys.authentication(b"alice", b"pwd", b"LS1", b"stable").unwrap();
    sys.nothing_pending();
}

#[test]
fn authentication_allows_threshold_but_write_identification_requires_all() {
    let mut sys = client(3, 2, 5);
    sys.account();
    sys.fail_identify = true;
    sys.authentication(b"alice", b"pwd", b"LS1", b"stable").unwrap();
    assert!(sys.password_update(b"alice", b"pwd", b"new").is_err());
}

#[test]
fn registration_and_secret_update_respect_causal_stages() {
    let mut sys = client(3, 2, 5);
    sys.setup(b"alice", b"pwd").unwrap();
    sys.trace = Trace::default();
    sys.registration(b"alice", b"pwd", b"LS1", b"stable").unwrap();
    assert_eq!(
        sys.stages(),
        vec!["identification", "provider_prepare", "ls_interaction", "finalization"]
    );
    sys.trace = Trace::default();
    sys.secret_update(b"alice", b"pwd", b"LS1", b"stable").unwrap();
    assert_eq!(
        sys.stages(),
        vec![
            "identification",
            "account_recovery",
            "provider_prepare",
            "ls_interaction",
            "finalization"
        ]
    );
}

#[test]
fn ls_rejection_discards_registration_accounts() {
    let mut sys = client(3, 2, 5);
    sys.setup(b"alice", b"pwd").unwrap();
    sys.memory
        .call(
            Target::LoginServer,
            Request::Ls(LsRequest::Register { uid: b"stable".to_vec(), verifier: [0; 32] }),
            NOW,
        )
        .unwrap();
    assert!(sys.registration(b"alice", b"pwd", b"LS1", b"stable").is_err());
    for (_, node) in &sys.memory.nodes {
        if let Node::Provider { upspa, .. } = node {
            assert!(upspa.accounts.is_empty());
            assert!(upspa.pending.is_empty());
        }
    }
}

#[test]
fn lost_store_ack_is_retried_after_ls_change() {
    let mut sys = recovery_client();
    sys.fail_store_count = 1;
    sys.secret_update(b"alice", b"pwd", b"LS1", b"stable").unwrap();
    assert_eq!(sys.stages().iter().filter(|s| **s == "finalization").count(), 2);
    sys.authentication(b"alice", b"pwd", b"LS1", b"stable").unwrap();
}

#[test]
fn unknown_ls_result_is_resolved_before_provider_finalization() {
    let mut sys = recovery_client();
    sys.lose_ls_reply = true;
    sys.secret_update(b"alice", b"pwd", b"LS1", b"stable").unwrap();
    assert!(sys.stages().contains(&"ls_recovery"));
    assert!(!sys.trace.calls.iter().any(|c| c.operation == "discard_ack"));
    sys.authentication(b"alice", b"pwd", b"LS1", b"stable").unwrap();
}

#[test]
fn incomplete_finalization_can_resume_without_changing_state_twice() {
    let mut sys = recovery_client();
    sys.fail_store_count = 3;
    assert_eq!(
        sys.secret_update(b"alice", b"pwd", b"LS1", b"stable"),
        Err("finalization incomplete; retained for resume: injected lost acknowledgement after processing".to_string())
    );
    assert_eq!(
        sys.password_update(b"alice", b"pwd", b"new"),
        Err("finalization must complete before another phase".to_string())
    );
    sys.resume().unwrap();
    sys.authentication(b"alice", b"pwd", b"LS1", b"stable").unwrap();
    sys.nothing_pending();
    assert_eq!(sys.resume(), Err("no finalization pending".to_string()));
}

#[test]
fn authentication_returns_after_safe_threshold_before_slow_provider() {
    let mut sys = recovery_client();
    sys.slow_provider = true;
    sys.authentication(b"alice", b"pwd", b"LS1", b"stable").unwrap();
    assert!(sys.ended_before_slow);
    assert_eq!(sys.operations("identification"), 3);
}

#[test]
fn unknown_ls_result_is_retained_until_the_server_answers() {
    let mut sys = recovery_client();
    sys.lose_ls_reply = true;
    sys.lose_probes = 1;
    assert_eq!(
        sys.secret_update(b"alice", b"pwd", b"LS1", b"stable"),
        Err("LS outcome unknown; provider preparations retained: injected lost acknowledgement after processing".to_string())
    );
    assert!(sys.system.require_idle().is_err());
    assert_eq!(
        sys.setup(b"bob", b"pwd"),
        Err("finalization must complete before another phase".to_string())
    );
    sys.resume().unwrap();
    assert!(sys.system.require_idle().is_ok());
    sys.authentication(b"alice", b"pwd", b"LS1", b"stable").unwrap();
    sys.nothing_pending();
}

#[test]
fn change_that_never_arrived_is_discarded() {
    let mut sys = recovery_client();
    sys.lose_ls_request = true;
    assert_eq!(
        sys.secret_update(b"alice", b"pwd", b"LS1", b"stable"),
        Err("LS rejected operation".to_string())
    );
    assert_eq!(sys.operations("discard_ack"), 3);
    assert_eq!(sys.operations("store_ack"), 0);
    sys.nothing_pending();
    assert!(sys.system.require_idle().is_ok());
    sys.authentication(b"alice", b"pwd", b"LS1", b"stable").unwrap();
}

/// Runs a phase up to the stage that sends the change to the login server.
fn until_change(sys: &mut Client, mut step: Step) -> (Stage, Progress) {
    loop {
        match step {
            Step::Run(stage, progress) if matches!(progress, Progress::Changing { .. }) => {
                return (stage, progress);
            }
            Step::Run(stage, progress) => {
                let stage_id = sys.trace.stages.len();
                let end = sys.stage(stage);
                step = sys.system.advance(progress, end, &sys.trace.calls, stage_id, NOW);
            }
            _ => panic!("no change"),
        }
    }
}

#[test]
fn acknowledged_change_is_not_discarded_when_the_deadline_passes() {
    let mut sys = recovery_client();
    let step = sys.system.secret_update(b"alice", b"pwd", b"LS1", b"stable");
    let (stage, progress) = until_change(&mut sys, step);
    let stage_id = sys.trace.stages.len();
    let recorded = sys.stage(stage);
    assert_eq!(recorded, Ok(vec![(0, Reply::Ack(true))]));
    let last = sys.trace.calls.last().unwrap();
    assert!(last.success && last.processing_ns.is_some() && last.stage_id == stage_id);
    let step = sys.system.advance(progress, expired(), &sys.trace.calls, stage_id, NOW);
    match &step {
        Step::Run(stage, _) => {
            assert_eq!(stage.kind.name(), "ls_recovery");
            assert!(stage.settle);
        }
        _ => panic!("no stage"),
    }
    assert!(sys.system.require_idle().is_err());
    assert_eq!(sys.finish(step).0, Ok(()));
    assert_eq!(sys.operations("store_ack"), 3);
    assert_eq!(sys.operations("discard_ack"), 0);
    sys.authentication(b"alice", b"pwd", b"LS1", b"stable").unwrap();
    sys.nothing_pending();
}

#[test]
fn recorded_refusal_is_discarded_when_the_deadline_passes() {
    let mut sys = client(3, 2, 12);
    sys.setup(b"alice", b"pwd").unwrap();
    let taken = LsRequest::Register { uid: b"stable".to_vec(), verifier: [0; 32] };
    sys.memory.call(Target::LoginServer, Request::Ls(taken), NOW).unwrap();
    let step = sys.system.registration(b"alice", b"pwd", b"LS1", b"stable");
    let (stage, progress) = until_change(&mut sys, step);
    let stage_id = sys.trace.stages.len();
    assert_eq!(sys.stage(stage), Err("already registered".to_string()));
    assert!(refused_by_login_server(&sys.trace.calls, stage_id));
    let step = sys.system.advance(progress, expired(), &sys.trace.calls, stage_id, NOW);
    assert_eq!(sys.finish(step).0, Err("stage deadline exceeded".to_string()));
    assert_eq!(sys.operations("discard_ack"), 3);
    assert!(!sys.stages().contains(&"ls_recovery"));
    sys.nothing_pending();
}

#[test]
fn unexpected_reply_to_a_change_is_resolved() {
    let mut sys = recovery_client();
    let step = sys.system.secret_update(b"alice", b"pwd", b"LS1", b"stable");
    let (stage, progress) = until_change(&mut sys, step);
    let stage_id = sys.trace.stages.len();
    sys.stage(stage).unwrap();
    let odd = Reply::Account(vec![]);
    let (_, sample) =
        record_call(stage_id, Target::LoginServer, "ls_change_credential", Ok(packet(Ok(odd))));
    assert!(!refused_by_login_server(&[sample.clone()], stage_id));
    let end = Ok(vec![(0, Reply::Account(vec![]))]);
    let step = sys.system.advance(progress, end, &[sample], stage_id, NOW);
    assert_eq!(sys.finish(step).0, Ok(()));
    assert!(sys.stages().contains(&"ls_recovery"));
    sys.authentication(b"alice", b"pwd", b"LS1", b"stable").unwrap();
}

#[test]
fn unusable_answer_about_a_change_retains_it() {
    let mut sys = recovery_client();
    sys.lose_ls_reply = true;
    sys.lose_probes = 1;
    assert!(sys.secret_update(b"alice", b"pwd", b"LS1", b"stable").is_err());
    match sys.system.resume_finalization() {
        Step::Run(stage, progress) => {
            assert_eq!(stage.kind.name(), "ls_recovery");
            assert!(!stage.settle);
            let end = Ok(vec![(0, Reply::Account(vec![]))]);
            match sys.system.advance(progress, end, &[], 0, NOW) {
                Step::Done(result) => assert_eq!(
                    result,
                    Err("unexpected LS resolution response; preparations retained".to_string())
                ),
                _ => panic!("not the end"),
            }
        }
        _ => panic!("no stage"),
    }
    assert!(sys.system.require_idle().is_err());
    sys.resume().unwrap();
    sys.nothing_pending();
}

#[test]
fn copied_nodes_answer_alike() {
    let mut sys = recovery_client();
    let state = sys.identification(b"alice", b"pwd", Requirement::AllProviders).unwrap();
    let suid = crypto::hash_upspa_suid(&state.rsp, b"LS1", 1);
    let read = || Request::Up(UpRequest::ReadAccount { suid });
    let mut copy = sys.memory.nodes[0].1.clone();
    let answer = copy.handle(read(), NOW);
    assert!(matches!(&answer, Ok(Reply::Account(_))));
    assert_eq!(answer, sys.memory.nodes[0].1.handle(read(), NOW));
    copy.handle(Request::Reset, NOW).unwrap();
    assert_eq!(copy.handle(read(), NOW), Err("unknown account".to_string()));
    assert_eq!(answer, sys.memory.nodes[0].1.handle(read(), NOW));
}

#[test]
fn setup_identifies_the_same_keys_for_every_threshold_of_providers() {
    let mut sys = client(5, 3, 21);
    sys.setup(b"alice", b"pwd").unwrap();
    let all = sys.identification(b"alice", b"pwd", Requirement::AllProviders).unwrap();
    sys.fail_identify = true;
    let some = sys.identification(b"alice", b"pwd", Requirement::Threshold).unwrap();
    assert_eq!(all, some);
    assert_eq!(all.timestamp, 0);
    assert_eq!(
        sys.identification(b"alice", b"wrong", Requirement::Threshold),
        Err("root decryption failed".to_string())
    );
    assert_eq!(
        sys.identification(b"bob", b"pwd", Requirement::Threshold),
        Err("insufficient matching ciphertexts".to_string())
    );
    assert_eq!(
        sys.identification(b"bob", b"pwd", Requirement::AllProviders),
        Err("unknown root".to_string())
    );
}

#[test]
fn password_update_keeps_the_keys_and_moves_the_timestamp() {
    let mut sys = client(3, 2, 22);
    sys.setup(b"alice", b"pwd").unwrap();
    let before = sys.identification(b"alice", b"pwd", Requirement::AllProviders).unwrap();
    sys.password_update(b"alice", b"pwd", b"new").unwrap();
    let after = sys.identification(b"alice", b"new", Requirement::AllProviders).unwrap();
    assert_eq!(after, IdentifiedState { timestamp: NOW, ..before });
    sys.password_update(b"alice", b"new", b"newer").unwrap();
    let last = sys.identification(b"alice", b"newer", Requirement::AllProviders).unwrap();
    assert_eq!(last.timestamp, NOW + 1);
}

#[test]
fn other_passwords_do_not_open_an_updated_root() {
    let mut sys = client(3, 2, 24);
    sys.account();
    sys.password_update(b"alice", b"pwd", b"new").unwrap();
    let refused = "root decryption failed".to_string();
    for password in [&b"pwd"[..], b"other", b""] {
        assert_eq!(
            sys.identification(b"alice", password, Requirement::AllProviders),
            Err(refused.clone())
        );
        sys.trace = Trace::default();
        assert_eq!(
            sys.authentication(b"alice", password, b"LS1", b"stable"),
            Err(refused.clone())
        );
        assert_eq!(sys.stages(), vec!["identification"]);
        assert_eq!(sys.password_update(b"alice", password, b"newer"), Err(refused.clone()));
    }
    sys.authentication(b"alice", b"new", b"LS1", b"stable").unwrap();
}

#[test]
fn tspa_login_with_another_password_is_rejected() {
    let mut sys = client(3, 2, 25);
    sys.tspa_registration(b"alice", b"pwd", b"LS1", b"t-user").unwrap();
    sys.trace = Trace::default();
    assert_eq!(
        sys.tspa_authentication(b"alice", b"wrong", b"LS1", b"t-user"),
        Err("operation rejected".to_string())
    );
    assert_eq!(sys.stages(), vec!["account_recovery", "ls_interaction"]);
    assert_eq!(sys.operations("oprf_and_record_read"), 2);
    assert!(sys.trace.calls[..2].iter().all(|call| call.success));
    sys.tspa_authentication(b"alice", b"pwd", b"LS1", b"t-user").unwrap();
}

/// The account ciphertexts of the providers, each at its own address.
fn account_ciphertexts(sys: &Client, state: &IdentifiedState) -> Vec<Vec<u8>> {
    let mut found = Vec::new();
    for (target, node) in &sys.memory.nodes {
        if let (Target::Provider(id), Node::Provider { upspa, .. }) = (target, node) {
            let suid = crypto::hash_upspa_suid(&state.rsp, b"LS1", *id);
            found.push(upspa.accounts.get(&suid).unwrap().clone());
        }
    }
    found
}

#[test]
fn secret_update_leaves_one_ciphertext_with_the_next_counter() {
    let mut sys = recovery_client();
    let state = sys.identification(b"alice", b"pwd", Requirement::AllProviders).unwrap();
    let before = account_ciphertexts(&sys, &state);
    sys.secret_update(b"alice", b"pwd", b"LS1", b"stable").unwrap();
    let after = account_ciphertexts(&sys, &state);
    assert!(after.iter().all(|ciphertext| *ciphertext == after[0]));
    assert_ne!(before[0], after[0]);
    let read = |ciphertext: &Vec<u8>| {
        let replies = [(1, Reply::Account(ciphertext.clone()))];
        recover_account(&state.k0, b"alice", b"LS1", &replies).unwrap()
    };
    assert_eq!((read(&before[0]).counter, read(&after[0]).counter), (0, 1));
    let verifier = crypto::hash_vinfo(&read(&after[0]).secret, b"LS1");
    let login = LsRequest::Authenticate { uid: b"stable".to_vec(), verifier };
    assert_eq!(
        sys.memory.call(Target::LoginServer, Request::Ls(login), NOW),
        Ok(Reply::Ack(true))
    );
    sys.authentication(b"alice", b"pwd", b"LS1", b"stable").unwrap();
}

#[test]
fn used_up_counter_ends_the_update_before_any_write() {
    let mut sys = recovery_client();
    let state = sys.identification(b"alice", b"pwd", Requirement::AllProviders).unwrap();
    let mut plaintext = [7; ACCOUNT_LEN];
    plaintext[32..].copy_from_slice(&u64::MAX.to_le_bytes());
    let ciphertext = crypto::xchacha_encrypt_detached(
        &state.k0,
        &account_context(b"alice", b"LS1"),
        &plaintext,
        &mut Rng::from_seed([2; 32]),
    )
    .encode();
    for (target, node) in sys.memory.nodes.iter_mut() {
        if let (Target::Provider(id), Node::Provider { upspa, .. }) = (target, node) {
            let suid = crypto::hash_upspa_suid(&state.rsp, b"LS1", *id);
            upspa.accounts.insert(suid, ciphertext.clone());
        }
    }
    sys.trace = Trace::default();
    assert_eq!(
        sys.secret_update(b"alice", b"pwd", b"LS1", b"stable"),
        Err("counter overflow".to_string())
    );
    assert_eq!(sys.stages(), vec!["identification", "account_recovery"]);
    assert!(sys.system.require_idle().is_ok());
}

#[test]
fn resumed_finalization_sends_the_same_requests() {
    let mut sys = recovery_client();
    sys.fail_store_count = 3;
    assert!(sys.secret_update(b"alice", b"pwd", b"LS1", b"stable").is_err());
    let requests = |step: &Step| match step {
        Step::Run(stage, _) => format!("{:?}", stage.requests),
        _ => panic!("no stage"),
    };
    let first = sys.system.resume_finalization();
    let again = sys.system.resume_finalization();
    assert_eq!(requests(&first), requests(&again));
    assert!(requests(&first).contains("store: true"));
    let state = sys.identification(b"alice", b"pwd", Requirement::Threshold).unwrap();
    let before = account_ciphertexts(&sys, &state);
    assert_eq!(sys.finish(first).0, Ok(()));
    assert_eq!(account_ciphertexts(&sys, &state), before);
    assert!(sys.system.require_idle().is_ok());
}

#[test]
fn repeated_setup_is_refused_and_leaves_the_first() {
    let mut sys = client(3, 2, 23);
    sys.setup(b"alice", b"pwd").unwrap();
    let state = sys.identification(b"alice", b"pwd", Requirement::AllProviders).unwrap();
    assert_eq!(sys.setup(b"alice", b"other"), Err("root already exists".to_string()));
    assert_eq!(sys.identification(b"alice", b"pwd", Requirement::AllProviders).unwrap(), state);
    sys.nothing_pending();
}

#[test]
fn authentication_sends_only_reads() {
    let mut sys = recovery_client();
    sys.authentication(b"alice", b"pwd", b"LS1", b"stable").unwrap();
    assert_eq!(sys.stages(), vec!["identification", "account_recovery", "ls_interaction"]);
    assert_eq!(sys.trace.calls.len(), 7);
    assert_eq!(
        sys.authentication(b"alice", b"pwd", b"LS2", b"stable"),
        Err("insufficient matching ciphertexts".to_string())
    );
    assert_eq!(
        sys.authentication(b"alice", b"pwd", b"LS1", b"nobody"),
        Err("operation rejected".to_string())
    );
}

#[test]
fn both_protocols_complete_on_the_same_nodes() {
    let mut sys = client(3, 2, 7);
    sys.setup(b"alice", b"pwd").unwrap();
    sys.registration(b"alice", b"pwd", b"LS1", b"up-user").unwrap();
    sys.secret_update(b"alice", b"pwd", b"LS1", b"up-user").unwrap();
    sys.password_update(b"alice", b"pwd", b"new").unwrap();
    sys.authentication(b"alice", b"new", b"LS1", b"up-user").unwrap();
    sys.reset().unwrap();
    assert!(sys.authentication(b"alice", b"new", b"LS1", b"up-user").is_err());
    sys.tspa_registration(b"alice", b"pwd", b"LS1", b"t-user").unwrap();
    sys.tspa_authentication(b"alice", b"pwd", b"LS1", b"t-user").unwrap();
    assert!(sys.tspa_authentication(b"alice", b"wrong", b"LS1", b"t-user").is_err());
}

#[test]
fn reset_needs_every_acknowledgement() {
    let mut sys = recovery_client();
    sys.fail_store_count = 3;
    assert!(sys.secret_update(b"alice", b"pwd", b"LS1", b"stable").is_err());
    assert_eq!(
        sys.system.reset(vec![Ok(Reply::Ack(true)), Err("gone".into()), Ok(Reply::Ack(false))]),
        Err("gone".to_string())
    );
    assert_eq!(
        sys.system.reset(vec![Ok(Reply::Ack(false)), Err("gone".into())]),
        Err("operation rejected".to_string())
    );
    assert!(sys.system.require_idle().is_err());
    sys.reset().unwrap();
    assert!(sys.system.require_idle().is_ok());
}

#[test]
fn configuration_is_limited() {
    for (n, t) in [(0, 0), (1, 0), (2, 3), (101, 1)] {
        assert_eq!(
            System::new(n, t, [0; 32]).err(),
            Some("require 1 <= t_sp <= n_sp <= 100".to_string())
        );
    }
    assert!(System::new(100, 100, [0; 32]).is_ok());
}

#[test]
fn nodes_refuse_requests_of_others() {
    let mut memory = InMemoryTransport::new(1, 1);
    assert_eq!(
        memory.call(Target::Provider(2), Request::Ping, NOW),
        Err("missing endpoint".to_string())
    );
    assert_eq!(memory.call(Target::Provider(1), Request::Ping, NOW), Ok(Reply::Ack(true)));
    let login = Request::Ls(LsRequest::Authenticate { uid: vec![], verifier: [0; 32] });
    assert_eq!(
        memory.call(Target::Provider(1), login, NOW),
        Err("wrong node".to_string())
    );
    let read = Request::Up(UpRequest::ReadAccount { suid: [0; 32] });
    assert_eq!(memory.call(Target::LoginServer, read, NOW), Err("wrong node".to_string()));
    let response = refused(&Request::Reset, false).unwrap();
    assert_eq!(response.result, Err("benchmark reset disabled".to_string()));
    assert_eq!(response.processing_ns, 0);
    assert!(refused(&Request::Reset, true).is_none());
    assert!(refused(&Request::Ping, false).is_none());
    assert_eq!(memory.call(Target::LoginServer, Request::Reset, NOW), Ok(Reply::Ack(true)));
}

#[test]
fn a_setup_draws_its_values_in_order() {
    let mut rng = Rng::from_seed([4; 32]);
    let sid = rand_bytes(&mut rng);
    let rsp = rand_bytes(&mut rng);
    let coeffs = random_scalars(2, &mut rng);
    let ssk = rand_bytes(&mut rng);
    let k0 = rand_bytes(&mut rng);
    let nonce = rand_bytes(&mut rng);
    let random = SetupRandomness { sid, rsp, coeffs, ssk, k0, nonce };
    let expected = setup_requests(3, b"alice", b"pwd", &random);
    let mut sys = client(3, 2, 4);
    match sys.system.setup(b"alice", b"pwd") {
        Step::Run(stage, _) => {
            assert_eq!(format!("{:?}", stage.requests), format!("{:?}", expected));
        }
        _ => panic!("no stage"),
    }
}

#[test]
fn the_seed_determines_what_is_drawn() {
    let blinded = |seed: u8| match client(3, 2, seed)
        .system
        .identification(b"alice", b"pwd", Requirement::Threshold)
    {
        Step::Run(stage, _) => match &stage.requests[0].1 {
            Request::Up(UpRequest::Identify { blinded, .. }) => *blinded,
            _ => panic!("not an identification"),
        },
        _ => panic!("no stage"),
    };
    assert_eq!(blinded(1), blinded(1));
    assert_ne!(blinded(1), blinded(2));
}

#[test]
fn calls_are_recorded() {
    let (answer, sample) =
        record_call(4, Target::Provider(1), "ping", Ok(packet(Ok(Reply::Ack(false)))));
    assert_eq!(answer, Ok(Reply::Ack(false)));
    assert!(!sample.success);
    assert_eq!(sample.error, "operation rejected");
    assert_eq!((sample.stage_id, sample.processing_ns), (4, Some(0)));
    let (answer, sample) = record_call(4, Target::Provider(1), "ping", Err("lost".into()));
    assert_eq!(answer, Err("lost".to_string()));
    assert_eq!((sample.error.as_str(), sample.processing_ns), ("lost", None));
    let (_, sample) = record_call(4, Target::Provider(1), "ping", Ok(packet(Ok(Reply::Ack(true)))));
    assert!(sample.success);
    assert_eq!(sample.error, "");
}

#[test]
fn benchmarked_phases_run_after_their_fixture() {
    let cases = [
        (Protocol::UpSPA, Phase::Setup),
        (Protocol::UpSPA, Phase::Registration),
        (Protocol::UpSPA, Phase::Authentication),
        (Protocol::UpSPA, Phase::SecretUpdate),
        (Protocol::UpSPA, Phase::PasswordUpdate),
        (Protocol::TSPA, Phase::Registration),
        (Protocol::TSPA, Phase::Authentication),
    ];
    for (protocol, phase) in cases {
        let mut sys = client(3, 2, 31);
        for earlier in fixture(protocol, phase) {
            let step = invoke(&mut sys.system, protocol, earlier);
            sys.finish(step).0.unwrap();
        }
        let step = invoke(&mut sys.system, protocol, phase);
        sys.finish(step).0.unwrap();
    }
    let mut sys = client(3, 2, 31);
    let step = invoke(&mut sys.system, Protocol::TSPA, Phase::Setup);
    assert_eq!(sys.finish(step).0, Err("phase not defined by TSPA".to_string()));
}

#[test]
fn stages_wait_for_what_they_need() {
    let mut sys = client(3, 2, 5);
    let policies = [
        (Requirement::Threshold, Policy::Agreement(2)),
        (Requirement::AllProviders, Policy::All),
    ];
    for (requirement, policy) in policies {
        match sys.system.identification(b"alice", b"pwd", requirement) {
            Step::Run(stage, _) => {
                assert_eq!(stage.policy, policy);
                assert_eq!(stage.requests.len(), 3);
                assert!(!stage.settle);
            }
            _ => panic!("no stage"),
        }
    }
}
