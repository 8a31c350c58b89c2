//! What a benchmark accepts, selects, counts and reports.

use vstd::prelude::*;

use vstd::utf8::encode_utf8;

use crate::benchmark::{
    catalogue, chosen_phases, count_objection, digits, durations, endpoint_objection, failures,
    figures_of, folded, in_namespace, login_server_objection, measured_index, message_count,
    next_provider, phase_name, planned, protocol_name, reported_client_time, reported_time,
    reported_traffic, run_count, run_label, seed_of_run, selection, succeeds, total_traffic,
    traffic, Address, Mode,
};
use crate::crypto::blake3_hash;
use crate::flow::StageKind;
use crate::messages::{Phase, Protocol};
use crate::trace::{CallSample, StageSample};
use crate::transport::Target;

verus! {

/// Whether a scheme is a name for a protocol: its own in small letters, or all of them.
pub open spec fn names_protocol(scheme: Seq<char>, protocol: Protocol) -> bool {
    scheme == "all"@ || scheme == match protocol {
        Protocol::UpSPA => "upspa"@,
        Protocol::TSPA => "tspa"@,
    }
}

/// Whether a text is a name for a phase: its own without regard to case, hyphens and
/// underscores, or all of them.
pub open spec fn names_phase(text: Seq<char>, phase: Phase) -> bool {
    text == "all"@ || folded(encode_utf8(text)) == encode_utf8(
        match phase {
            Phase::Setup => "setup"@,
            Phase::Registration => "registration"@,
            Phase::Authentication => "authentication"@,
            Phase::SecretUpdate => "secretupdate"@,
            Phase::PasswordUpdate => "passwordupdate"@,
        },
    )
}

/// The catalogue has every phase of UpSPA, and of TSPA the registration and the login, each
/// once; what a phase builds on comes before it.
pub proof fn law_catalogue_is_complete(protocol: Protocol, phase: Phase)
    ensures
        catalogue().contains((protocol, phase)) <==> protocol == Protocol::UpSPA || phase
            == Phase::Registration || phase == Phase::Authentication,
        catalogue().len() == 7,
        catalogue().no_duplicates(),
        catalogue()[0] == (Protocol::UpSPA, Phase::Setup),
        catalogue()[1] == (Protocol::TSPA, Phase::Registration),
        catalogue()[2] == (Protocol::UpSPA, Phase::Registration),
        catalogue()[3] == (Protocol::TSPA, Phase::Authentication),
        catalogue()[4] == (Protocol::UpSPA, Phase::Authentication),
        catalogue()[5] == (Protocol::UpSPA, Phase::SecretUpdate),
        catalogue()[6] == (Protocol::UpSPA, Phase::PasswordUpdate),
{
    let all = catalogue();
    assert(all[0] == (Protocol::UpSPA, Phase::Setup));
    assert(all[1] == (Protocol::TSPA, Phase::Registration));
    assert(all[2] == (Protocol::UpSPA, Phase::Registration));
    assert(all[3] == (Protocol::TSPA, Phase::Authentication));
    assert(all[4] == (Protocol::UpSPA, Phase::Authentication));
    assert(all[5] == (Protocol::UpSPA, Phase::SecretUpdate));
    assert(all[6] == (Protocol::UpSPA, Phase::PasswordUpdate));
}

proof fn lemma_selection_is_a_filter(
    scheme: Seq<char>,
    selected: Seq<char>,
    entries: Seq<(Protocol, Phase)>,
)
    ensures
        selection(scheme, selected, entries) == entries.filter(
            |entry: (Protocol, Phase)|
                names_protocol(scheme, entry.0) && names_phase(selected, entry.1),
        ),
    decreases entries.len(),
{
    reveal(Seq::filter);
    if entries.len() > 0 {
        lemma_selection_is_a_filter(scheme, selected, entries.drop_last());
    }
}

/// A choice gives exactly the entries of the catalogue that both names stand for, in the
/// catalogue's order. An unknown scheme is refused, and so is a choice that no entry meets.
pub proof fn law_choice_gives_what_it_names(scheme: Seq<char>, selected: Seq<char>)
    ensures
        ({
            let named = catalogue().filter(
                |entry: (Protocol, Phase)|
                    names_protocol(scheme, entry.0) && names_phase(selected, entry.1),
            );
            let known = scheme == "all"@ || scheme == "upspa"@ || scheme == "tspa"@;
            &&& !known ==> chosen_phases(scheme, selected) == Err::<
                Seq<(Protocol, Phase)>,
                Seq<char>,
            >("invalid scheme"@)
            &&& known && named.len() == 0 ==> chosen_phases(scheme, selected) == Err::<
                Seq<(Protocol, Phase)>,
                Seq<char>,
            >("no protocol phase matches"@)
            &&& known && named.len() > 0 ==> chosen_phases(scheme, selected) == Ok::<
                Seq<(Protocol, Phase)>,
                Seq<char>,
            >(named)
        }),
{
    lemma_selection_is_a_filter(scheme, selected, catalogue());
}

/// Folding goes byte by byte: hyphens and underscores are left out, capital letters become
/// small ones, and every other byte stays.
pub proof fn law_folding_goes_byte_by_byte(a: Seq<u8>, b: Seq<u8>, byte: u8)
    ensures
        folded(Seq::<u8>::empty()) == Seq::<u8>::empty(),
        folded(a + b) == folded(a) + folded(b),
        byte == 45 || byte == 95 ==> folded(seq![byte]) == Seq::<u8>::empty(),
        65 <= byte <= 90 ==> folded(seq![byte]) == seq![(byte + 32) as u8],
        byte != 45 && byte != 95 && !(65 <= byte <= 90) ==> folded(seq![byte]) == seq![byte],
    decreases b.len(),
{
    assert(seq![byte].drop_last() =~= Seq::<u8>::empty());
    assert(seq![byte].last() == byte);
    reveal_with_fuel(folded, 2);
    if byte == 45 || byte == 95 {
        assert(folded(seq![byte]) =~= Seq::<u8>::empty());
    } else if 65 <= byte <= 90 {
        assert(folded(seq![byte]) =~= seq![(byte + 32) as u8]);
    } else {
        assert(folded(seq![byte]) =~= seq![byte]);
    }
    if b.len() == 0 {
        assert(a + b =~= a);
        assert(folded(a) + folded(b) =~= folded(a));
    } else {
        law_folding_goes_byte_by_byte(a, b.drop_last(), byte);
        assert((a + b).drop_last() =~= a + b.drop_last());
        assert((a + b).last() == b.last());
        assert(folded(a + b) =~= folded(a) + folded(b));
    }
}

/// The number that decimal digits stand for.
pub open spec fn decimal(text: Seq<u8>) -> nat
    decreases text.len(),
{
    if text.len() == 0 {
        0
    } else {
        (10 * decimal(text.drop_last()) + (text.last() - 48)) as nat
    }
}

/// The digits of a number are decimal digits, stand for the number, and do not start with a
/// zero unless the number is zero.
pub proof fn law_digits_stand_for_the_number(value: nat)
    ensures
        decimal(digits(value)) == value,
        digits(value).len() >= 1,
        forall|i: int|
            #![trigger digits(value)[i]]
            0 <= i < digits(value).len() ==> 48 <= digits(value)[i] <= 57,
        value > 0 ==> digits(value)[0] != 48,
        value == 0 ==> digits(value) == seq![48u8],
    decreases value,
{
    reveal_with_fuel(decimal, 2);
    if value < 10 {
        assert(digits(value).drop_last() =~= Seq::<u8>::empty());
        assert(digits(value).last() == 48 + value);
    } else {
        law_digits_stand_for_the_number(value / 10);
        assert(digits(value).drop_last() =~= digits(value / 10));
        assert(digits(value).last() == 48 + value % 10);
    }
}

/// A run is labelled by protocol, phase, number of providers, threshold and iteration, with
/// a slash between any two and nowhere else; its seed is the hash of the label.
pub proof fn law_run_is_labelled_by_all_it_depends_on(
    protocol: Protocol,
    phase: Phase,
    n: nat,
    t: nat,
    iteration: nat,
)
    ensures
        run_label(protocol, phase, n, t, iteration) == encode_utf8(
            match protocol {
                Protocol::UpSPA => "UpSPA"@,
                Protocol::TSPA => "TSPA"@,
            },
        ) + seq![47u8] + encode_utf8(
            match phase {
                Phase::Setup => "Setup"@,
                Phase::Registration => "Registration"@,
                Phase::Authentication => "Authentication"@,
                Phase::SecretUpdate => "SecretUpdate"@,
                Phase::PasswordUpdate => "PasswordUpdate"@,
            },
        ) + seq![47u8] + digits(n) + seq![47u8] + digits(t) + seq![47u8] + digits(iteration),
        seed_of_run(protocol, phase, n, t, iteration) == blake3_hash(
            run_label(protocol, phase, n, t, iteration),
        ),
{
    let a = encode_utf8(protocol_name(protocol));
    let b = encode_utf8(phase_name(phase));
    assert(run_label(protocol, phase, n, t, iteration) =~= a + seq![47u8] + b + seq![47u8] + digits(
        n,
    ) + seq![47u8] + digits(t) + seq![47u8] + digits(iteration));
}

/// A benchmark is planned exactly for a threshold between one and the number of providers,
/// at most a hundred of them, a deadline, phases that the choice names, and at least one
/// measured run. Fifty runs before and two hundred while measuring are the default, and what
/// is given counts.
pub proof fn law_plan_is_what_was_asked_for(
    scheme: Seq<char>,
    phase: Seq<char>,
    n_sp: usize,
    t_sp: usize,
    deadline_ms: u64,
    warmup: Option<usize>,
    measured: Option<usize>,
)
    ensures
        ({
            let plan = planned(scheme, phase, n_sp, t_sp, deadline_ms, warmup, measured);
            let chosen = chosen_phases(scheme, phase);
            let sized = 1 <= t_sp && t_sp <= n_sp && n_sp <= 100;
            &&& plan is Ok <==> sized && deadline_ms > 0 && chosen is Ok && measured != Some(0usize)
            &&& plan is Ok ==> {
                &&& plan->Ok_0.0 == chosen->Ok_0
                &&& warmup is Some ==> plan->Ok_0.1 == warmup->0
                &&& warmup is None ==> plan->Ok_0.1 == 50
                &&& measured is Some ==> plan->Ok_0.2 == measured->0
                &&& measured is None ==> plan->Ok_0.2 == 200
            }
            &&& !sized ==> plan->Err_0 == "invalid deployment configuration"@
            &&& sized && deadline_ms == 0 ==> plan->Err_0 == "deadline must be positive"@
            &&& sized && deadline_ms > 0 && chosen is Err ==> plan->Err_0 == chosen->Err_0
            &&& sized && deadline_ms > 0 && chosen is Ok && measured == Some(0usize) ==> plan->Err_0
                == "measured count must be positive"@
        }),
{
}

/// The runs from the warmup on are measured, numbered from zero.
pub proof fn law_runs_after_the_warmup_are_measured(iteration: usize, warmup: usize)
    ensures
        measured_index(iteration, warmup) is Some <==> iteration >= warmup,
        forall|index: usize|
            measured_index(iteration, warmup) == Some(index) ==> #[trigger] (index + warmup)
                == iteration,
{
}

/// A phase is run until every measured run was had, and not once more.
pub proof fn law_as_many_runs_as_asked_for_are_measured(
    iteration: usize,
    warmup: usize,
    measured: usize,
)
    ensures
        iteration < run_count(warmup as int, measured as int) <==> match measured_index(
            iteration,
            warmup,
        ) {
            Some(index) => index < measured,
            None => true,
        },
{
}

/// The number of failures is the number of results that are none, and a benchmark succeeds
/// exactly if every result is a success.
pub proof fn law_failures_are_counted(results: Seq<bool>)
    ensures
        failures(results) == results.filter(|ok: bool| !ok).len(),
        succeeds(results) <==> forall|i: int| 0 <= i < results.len() ==> #[trigger] results[i],
    decreases results.len(),
{
    reveal(Seq::filter);
    if results.len() > 0 {
        let front = results.drop_last();
        law_failures_are_counted(front);
        assert(results[results.len() - 1] == results.last());
        if succeeds(results) {
            assert forall|i: int| 0 <= i < results.len() implies #[trigger] results[i] by {
                if i < front.len() {
                    assert(front[i]);
                }
            }
        }
        if forall|i: int| 0 <= i < results.len() ==> #[trigger] results[i] {
            assert forall|i: int| 0 <= i < front.len() implies #[trigger] front[i] by {
                assert(results[i]);
            }
        }
    }
}

/// An address has these octets.
pub open spec fn is_at(address: Address, a: u8, b: u8, c: u8, d: int) -> bool {
    address.octets matches Some(octets) && octets@.len() == 4 && octets@[0] == a && octets@[1] == b
        && octets@[2] == c && octets@[3] == d
}

/// The next provider's address is accepted exactly if it is 10.210.0.x with x eleven more
/// than the number of those accepted, and no accepted one is the same with the same port.
/// The login server's is accepted exactly at 10.210.0.200. The number of providers has to
/// be that of the deployment.
pub proof fn law_endpoints_lie_in_the_namespace(
    accepted: Seq<Address>,
    address: Address,
    named: int,
    n_sp: int,
)
    requires
        accepted.len() <= 244,
    ensures
        ({
            let place = accepted.len() + 11;
            let inside = is_at(address, 10, 210, 0, place as int);
            let taken = exists|i: int|
                0 <= i < accepted.len() && (#[trigger] accepted[i]).port == address.port && is_at(
                    accepted[i],
                    10,
                    210,
                    0,
                    place as int,
                );
            &&& endpoint_objection(accepted, address) is None <==> inside && !taken
            &&& !inside ==> endpoint_objection(accepted, address) == Some(
                "provider endpoint must use namespace address"@,
            )
            &&& inside && taken ==> endpoint_objection(accepted, address) == Some(
                "duplicate endpoint"@,
            )
        }),
        login_server_objection(address) is None <==> is_at(address, 10, 210, 0, 200),
        !is_at(address, 10, 210, 0, 200) ==> login_server_objection(address) == Some(
            "LS must use namespace address"@,
        ),
        next_provider(accepted) == Target::Provider((accepted.len() + 1) as u32),
        count_objection(named, n_sp) is None <==> named == n_sp,
        named != n_sp ==> count_objection(named, n_sp) == Some(
            "endpoint count differs from n_sp"@,
        ),
{
    let place = accepted.len() + 11;
    lemma_octets(address, place as int);
    lemma_octets(address, 200);
    assert forall|i: int| #![trigger accepted[i]] 0 <= i
        < accepted.len() implies in_namespace(accepted[i], place as int) == is_at(
        accepted[i],
        10,
        210,
        0,
        place as int,
    ) by {
        lemma_octets(accepted[i], place as int);
    }
}

proof fn lemma_octets(address: Address, last: int)
    requires
        0 <= last <= 255,
    ensures
        in_namespace(address, last) == is_at(address, 10, 210, 0, last),
{
    if let Some(octets) = address.octets {
        if is_at(address, 10, 210, 0, last) {
            assert(octets@ =~= seq![10u8, 210, 0, last as u8]);
        }
    }
}

/// The traffic of calls adds up over any two parts, of one call it is the bytes in that
/// direction, and it is unknown as soon as it is unknown of one.
pub proof fn law_traffic_adds_up(a: Seq<CallSample>, b: Seq<CallSample>, call: CallSample)
    ensures
        total_traffic(Seq::<CallSample>::empty(), true) == Some(0int),
        total_traffic(Seq::<CallSample>::empty(), false) == Some(0int),
        total_traffic(seq![call], true) == (match call.bytes_sent {
            Some(bytes) => Some(bytes as int),
            None => None,
        }),
        total_traffic(seq![call], false) == (match call.bytes_received {
            Some(bytes) => Some(bytes as int),
            None => None,
        }),
        forall|outgoing: bool|
            total_traffic(a + b, outgoing) == #[trigger] sum_of(
                total_traffic(a, outgoing),
                total_traffic(b, outgoing),
            ),
    decreases b.len(),
{
    assert(seq![call].drop_last() =~= Seq::<CallSample>::empty());
    assert(seq![call].last() == call);
    reveal_with_fuel(total_traffic, 2);
    if b.len() == 0 {
        assert(a + b =~= a);
    } else {
        law_traffic_adds_up(a, b.drop_last(), call);
        assert((a + b).drop_last() =~= a + b.drop_last());
        assert((a + b).last() == b.last());
        assert forall|outgoing: bool| total_traffic(a + b, outgoing) == #[trigger] sum_of(
            total_traffic(a, outgoing),
            total_traffic(b, outgoing),
        ) by {
            assert(total_traffic(a + b.drop_last(), outgoing) == sum_of(
                total_traffic(a, outgoing),
                total_traffic(b.drop_last(), outgoing),
            ));
            assert(traffic(b.last(), outgoing) == traffic((a + b).last(), outgoing));
        }
    }
}

/// The sum of two numbers, if both are known.
pub open spec fn sum_of(a: Option<int>, b: Option<int>) -> Option<int> {
    match (a, b) {
        (Some(x), Some(y)) => Some(x + y),
        _ => None,
    }
}

/// The messages of calls are their requests with known traffic and their responses with
/// known traffic.
pub proof fn law_messages_are_requests_and_responses(calls: Seq<CallSample>)
    ensures
        message_count(calls) == calls.filter(|call: CallSample| call.bytes_sent is Some).len()
            + calls.filter(|call: CallSample| call.bytes_received is Some).len(),
    decreases calls.len(),
{
    reveal(Seq::filter);
    if calls.len() > 0 {
        law_messages_are_requests_and_responses(calls.drop_last());
    }
}

/// The durations of the stages of a name.
pub open spec fn times_of(stages: Seq<StageSample>, name: Seq<char>) -> Seq<u64> {
    stages.filter(|stage: StageSample| stage.stage@ == name).map_values(
        |stage: StageSample| stage.elapsed_ns,
    )
}

/// The durations of a stage are those of all stages of its name, in their order.
pub proof fn law_durations_are_of_the_named_stages(stages: Seq<StageSample>, name: Seq<char>)
    ensures
        durations(stages, name) == times_of(stages, name),
    decreases stages.len(),
{
    reveal(Seq::filter);
    if stages.len() == 0 {
        assert(durations(stages, name) =~= times_of(stages, name));
    } else {
        let front = stages.drop_last();
        law_durations_are_of_the_named_stages(front, name);
        if stages.last().stage@ == name {
            assert(times_of(stages, name) =~= times_of(front, name).push(
                stages.last().elapsed_ns,
            ));
        } else {
            assert(times_of(stages, name) =~= times_of(front, name));
        }
    }
}

/// A run reports what its mode measures and nothing else: a client run the client's own
/// time, if it was started, a network run the time from end to end and the traffic, as far
/// as it is known, within the range of its counter, and a provider run none of these.
pub proof fn law_run_reports_what_its_mode_measures(
    mode: Mode,
    elapsed_ns: Option<u64>,
    client_ns: u64,
    calls: Seq<CallSample>,
    outgoing: bool,
)
    ensures
        reported_client_time(mode, elapsed_ns, client_ns) is Some <==> mode == Mode::ClientLocal
            && elapsed_ns is Some,
        reported_client_time(mode, elapsed_ns, client_ns) is Some ==> reported_client_time(
            mode,
            elapsed_ns,
            client_ns,
        )->0 == client_ns,
        mode == Mode::Network ==> reported_time(mode, elapsed_ns) == elapsed_ns,
        mode != Mode::Network ==> reported_time(mode, elapsed_ns) is None,
        reported_traffic(mode, calls, outgoing) is Some <==> mode == Mode::Network
            && total_traffic(calls, outgoing) is Some,
        reported_traffic(mode, calls, outgoing) is Some ==> reported_traffic(mode, calls, outgoing)
            == Some(total_traffic(calls, outgoing)->0 % 0x1_0000_0000_0000_0000),
{
}

/// The figures of a run are those of its own records: the traffic of its calls in each
/// direction, their messages, its stages, and for each kind of stage the durations of
/// exactly the stages of this kind.
pub proof fn law_figures_are_of_the_run(
    mode: Mode,
    elapsed_ns: Option<u64>,
    client_ns: u64,
    stages: Seq<StageSample>,
    calls: Seq<CallSample>,
)
    ensures
        ({
            let figures = figures_of(mode, elapsed_ns, client_ns, stages, calls);
            &&& figures.client_local_ns == reported_client_time(mode, elapsed_ns, client_ns)
            &&& figures.total_e2e_ns == reported_time(mode, elapsed_ns)
            &&& figures.bytes_sent == reported_traffic(mode, calls, true)
            &&& figures.bytes_received == reported_traffic(mode, calls, false)
            &&& figures.application_messages == calls.filter(
                |call: CallSample| call.bytes_sent is Some,
            ).len() + calls.filter(|call: CallSample| call.bytes_received is Some).len()
            &&& figures.causal_network_stages == stages.len()
            &&& figures.identification_ns == times_of(stages, "identification"@)
            &&& figures.account_recovery_ns == times_of(stages, "account_recovery"@)
            &&& figures.provider_prepare_ns == times_of(stages, "provider_prepare"@)
            &&& figures.ls_interaction_ns == times_of(stages, "ls_interaction"@)
            &&& figures.finalization_ns == times_of(stages, "finalization"@)
        }),
{
    law_messages_are_requests_and_responses(calls);
    law_durations_are_of_the_named_stages(stages, "identification"@);
    law_durations_are_of_the_named_stages(stages, "account_recovery"@);
    law_durations_are_of_the_named_stages(stages, "provider_prepare"@);
    law_durations_are_of_the_named_stages(stages, "ls_interaction"@);
    law_durations_are_of_the_named_stages(stages, "finalization"@);
}

/// Modes, their files and stages have the names that results are filed under.
pub proof fn law_results_are_filed_under_their_names(mode: Mode, kind: StageKind)
    ensures
        match mode {
            Mode::ClientLocal => mode.label() == "client_local"@ && mode.file()
                == "client_local.csv"@,
            Mode::SpLocal => mode.label() == "sp_local"@ && mode.file() == "sp_runs.csv"@,
            Mode::Network => mode.label() == "network"@ && mode.file() == "e2e.csv"@,
        },
        match kind {
            StageKind::ProviderPrepare => kind.label() == "provider_prepare"@,
            StageKind::Identification => kind.label() == "identification"@,
            StageKind::AccountRecovery => kind.label() == "account_recovery"@,
            StageKind::LsInteraction => kind.label() == "ls_interaction"@,
            StageKind::Finalization => kind.label() == "finalization"@,
            StageKind::LsRecovery => kind.label() == "ls_recovery"@,
        },
{
}

} // verus!
