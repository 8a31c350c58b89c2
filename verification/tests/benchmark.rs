use tspa::benchmark::{
    application_messages, check_login_server, check_provider_count, count_failures, fixture, phases, plan_run,
    run_figures, run_index, run_seed, run_verdict, sum_bytes, Address, EndpointCheck, Endpoints, Mode,
};
use tspa::messages::{Phase, Protocol};
use tspa::system::{CallSample, StageSample, Trace};
use tspa::transport::{frame_header, frame_size, framed_length, Node, Target, MAX_FRAME};

fn call(sent: Option<u64>, received: Option<u64>) -> CallSample {
    CallSample {
        stage_id: 0,
        target: Target::LoginServer,
        operation: "ping".into(),
        processing_ns: None,
        bytes_sent: sent,
        bytes_received: received,
        success: true,
        error: String::new(),
    }
}

fn address(last: u8, port: u16) -> Address {
    Address { octets: Some([10, 210, 0, last]), port }
}

#[test]
fn all_phases_in_order() {
    assert_eq!(
        phases("all", "all").unwrap(),
        vec![
            (Protocol::UpSPA, Phase::Setup),
            (Protocol::TSPA, Phase::Registration),
            (Protocol::UpSPA, Phase::Registration),
            (Protocol::TSPA, Phase::Authentication),
            (Protocol::UpSPA, Phase::Authentication),
            (Protocol::UpSPA, Phase::SecretUpdate),
            (Protocol::UpSPA, Phase::PasswordUpdate),
        ]
    );
}

#[test]
fn phases_are_selected_by_name() {
    assert_eq!(
        phases("tspa", "all").unwrap(),
        vec![(Protocol::TSPA, Phase::Registration), (Protocol::TSPA, Phase::Authentication)]
    );
    for name in ["secret-update", "SECRET_update", "secretupdate", "-Secret--Update_"] {
        assert_eq!(
            phases("upspa", name).unwrap(),
            vec![(Protocol::UpSPA, Phase::SecretUpdate)]
        );
    }
    assert_eq!(
        phases("all", "registration").unwrap(),
        vec![(Protocol::TSPA, Phase::Registration), (Protocol::UpSPA, Phase::Registration)]
    );
    assert_eq!(phases("UpSPA", "all"), Err("invalid scheme".to_string()));
    assert_eq!(phases("tspa", "setup"), Err("no protocol phase matches".to_string()));
    assert_eq!(phases("all", "ALL"), Err("no protocol phase matches".to_string()));
    assert_eq!(phases("all", ""), Err("no protocol phase matches".to_string()));
}

#[test]
fn fixtures_prepare_what_a_phase_needs() {
    assert_eq!(fixture(Protocol::UpSPA, Phase::Setup), vec![]);
    assert_eq!(fixture(Protocol::UpSPA, Phase::Registration), vec![Phase::Setup]);
    assert_eq!(fixture(Protocol::UpSPA, Phase::PasswordUpdate), vec![Phase::Setup]);
    for phase in [Phase::Authentication, Phase::SecretUpdate] {
        assert_eq!(fixture(Protocol::UpSPA, phase), vec![Phase::Setup, Phase::Registration]);
    }
    assert_eq!(fixture(Protocol::TSPA, Phase::Registration), vec![]);
    assert_eq!(fixture(Protocol::TSPA, Phase::Authentication), vec![Phase::Registration]);
}

#[test]
fn seeds_are_hashes_of_run_labels() {
    assert_eq!(
        run_seed(Protocol::UpSPA, Phase::SecretUpdate, 10, 4, 205),
        *blake3::hash(b"UpSPA/SecretUpdate/10/4/205").as_bytes()
    );
    assert_eq!(
        run_seed(Protocol::TSPA, Phase::Registration, 3, 2, 0),
        *blake3::hash(b"TSPA/Registration/3/2/0").as_bytes()
    );
    assert_ne!(
        run_seed(Protocol::UpSPA, Phase::Setup, 11, 1, 1),
        run_seed(Protocol::UpSPA, Phase::Setup, 1, 11, 1)
    );
}

#[test]
fn run_configuration_is_checked() {
    let plan = plan_run("tspa", "all", 3, 2, 10, None, None).unwrap();
    assert_eq!((plan.warmup, plan.measured, plan.selected.len()), (50, 200, 2));
    assert_eq!(plan.iterations(), 250);
    let plan = plan_run("all", "setup", 1, 1, 10, Some(0), Some(1)).unwrap();
    assert_eq!((plan.warmup, plan.measured, plan.selected.len()), (0, 1, 1));
    for (n, t) in [(0, 0), (3, 0), (3, 4), (101, 2)] {
        assert_eq!(
            plan_run("all", "all", n, t, 10, None, None).err(),
            Some("invalid deployment configuration".to_string())
        );
    }
    assert_eq!(
        plan_run("all", "all", 3, 2, 0, None, None).err(),
        Some("deadline must be positive".to_string())
    );
    assert_eq!(
        plan_run("none", "all", 3, 2, 1, None, Some(0)).err(),
        Some("invalid scheme".to_string())
    );
    assert_eq!(
        plan_run("all", "all", 3, 2, 1, None, Some(0)).err(),
        Some("measured count must be positive".to_string())
    );
}

#[test]
fn endpoints_use_namespace_addresses() {
    let mut check = EndpointCheck::new();
    assert_eq!(check.accept(address(11, 9000)), Ok(Target::Provider(1)));
    assert_eq!(
        check.accept(address(11, 9000)),
        Err("provider endpoint must use namespace address".to_string())
    );
    assert_eq!(
        check.accept(Address { octets: None, port: 1 }),
        Err("provider endpoint must use namespace address".to_string())
    );
    assert_eq!(check.accept(address(12, 9000)), Ok(Target::Provider(2)));
    assert_eq!(check.accepted.len(), 2);
    let mut repeated = EndpointCheck { accepted: vec![address(12, 7)] };
    assert_eq!(repeated.accept(address(12, 7)), Err("duplicate endpoint".to_string()));
    assert_eq!(repeated.accept(address(12, 8)), Ok(Target::Provider(2)));
    assert_eq!(check_login_server(&address(200, 1)), Ok(()));
    assert_eq!(
        check_login_server(&address(201, 1)),
        Err("LS must use namespace address".to_string())
    );
    let endpoints = Endpoints { providers: vec!["a".into()], login_server: "b".into() };
    assert_eq!(check_provider_count(&endpoints, 1), Ok(()));
    assert_eq!(
        check_provider_count(&endpoints, 2),
        Err("endpoint count differs from n_sp".to_string())
    );
}

#[test]
fn traffic_is_summed_if_it_is_known() {
    let calls = [call(Some(3), Some(7)), call(Some(4), None), call(Some(5), Some(1))];
    assert_eq!(sum_bytes(&calls, true), Some(12));
    assert_eq!(sum_bytes(&calls, false), None);
    assert_eq!(sum_bytes(&[], true), Some(0));
    assert_eq!(sum_bytes(&[call(Some(u64::MAX), None), call(Some(2), None)], true), Some(1));
    assert_eq!(application_messages(&calls), 5);
    assert_eq!(application_messages(&[]), 0);
}

#[test]
fn modes_have_names_and_files() {
    let expected = [
        (Mode::ClientLocal, "client_local", "client_local.csv"),
        (Mode::SpLocal, "sp_local", "sp_runs.csv"),
        (Mode::Network, "network", "e2e.csv"),
    ];
    for (mode, name, file) in expected {
        assert_eq!(mode.name(), name);
        assert_eq!(mode.run_file(), file);
    }
}

#[test]
fn frames_are_limited() {
    assert_eq!(frame_header(258), Ok([2, 1, 0, 0]));
    assert_eq!(framed_length(258), 262);
    assert_eq!(frame_size(&[2, 1, 0, 0]), Ok(258));
    assert_eq!(frame_size(&frame_header(MAX_FRAME).unwrap()), Ok(1048576));
    assert_eq!(frame_header(MAX_FRAME + 1), Err("frame exceeds size limit".to_string()));
    assert_eq!(frame_size(&[1, 0, 16, 0]), Err("frame exceeds size limit".to_string()));
}

#[test]
fn nodes_are_numbered_from_one() {
    assert_eq!(Node::for_id(Some(0), 1).err(), Some("provider ids are one-based".to_string()));
    assert!(matches!(Node::for_id(Some(2), 1), Ok(Node::Provider { upspa, .. }) if upspa.provider_id == 2));
    assert!(matches!(Node::for_id(None, 1), Ok(Node::LoginServer(_))));
}

#[test]
fn figures_depend_on_the_mode() {
    let stage = |name: &str, elapsed_ns| StageSample {
        stage_id: 0,
        stage: name.into(),
        elapsed_ns,
        requests: 3,
    };
    let trace = Trace {
        client_ns: 77,
        stages: vec![stage("finalization", 5), stage("identification", 6), stage("finalization", 7)],
        calls: vec![call(Some(3), Some(4)), call(Some(5), Some(6))],
    };
    let local = run_figures(Mode::ClientLocal, Some(9), &trace);
    assert_eq!((local.client_local_ns, local.total_e2e_ns), (Some(77), None));
    assert_eq!((local.bytes_sent, local.bytes_received), (None, None));
    assert_eq!(local.finalization_ns, vec![5, 7]);
    assert_eq!(local.identification_ns, vec![6]);
    assert!(local.account_recovery_ns.is_empty());
    assert_eq!((local.application_messages, local.causal_network_stages), (4, 3));
    assert_eq!(run_figures(Mode::ClientLocal, None, &trace).client_local_ns, None);
    let network = run_figures(Mode::Network, Some(9), &trace);
    assert_eq!((network.client_local_ns, network.total_e2e_ns), (None, Some(9)));
    assert_eq!((network.bytes_sent, network.bytes_received), (Some(8), Some(10)));
    let provider = run_figures(Mode::SpLocal, Some(9), &trace);
    assert_eq!((provider.client_local_ns, provider.total_e2e_ns), (None, None));
    assert_eq!(run_index(4, 5), None);
    assert_eq!(run_index(5, 5), Some(0));
}

#[test]
fn a_benchmark_succeeds_if_no_run_failed() {
    assert!(run_verdict(&[]));
    assert!(run_verdict(&[true, true]));
    assert!(!run_verdict(&[true, false, true]));
    assert_eq!(count_failures(&[false, true, false]), 2);
    assert_eq!(count_failures(&[true]), 0);
}
