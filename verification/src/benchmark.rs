//! What a benchmark runs: the selected phases, their prerequisites, the seeds of the
//! runs, the deployment that is accepted, and the traffic that is counted.

use vstd::prelude::*;

use vstd::utf8::{encode_utf8, encode_utf8_decode_utf8, is_ascii_chars, is_ascii_chars_encode_utf8};

use crate::accounts::Names;
use crate::bytes::{append_bytes, copy_bytes, same_bytes, same_text};
use crate::crypto::{blake3_hash, hash_bytes};
use crate::flow::{
    authenticates_tspa, blinds, phase_started, registers_tspa, sets_up, setup_started,
    tspa_authentication_started, tspa_registration_started, GoalModel, Requirement, StageKind, Step,
    StepModel, SystemModel,
};
use crate::messages::{message, Key, Phase, Protocol, Result};
use crate::system::System;
use crate::trace::{CallSample, StageSample, Trace};
use crate::transport::Target;

verus! {

/// What a benchmark measures.
#[derive(Clone, Copy, Debug, PartialEq, Eq, Structural)]
pub enum Mode {
    ClientLocal,
    SpLocal,
    Network,
}

impl Mode {
    /// The name of a mode.
    pub open spec fn label(self) -> Seq<char> {
        match self {
            Mode::ClientLocal => "client_local"@,
            Mode::SpLocal => "sp_local"@,
            Mode::Network => "network"@,
        }
    }

    /// The name of a mode.
    pub fn name(&self) -> (name: &'static str)
        ensures
            name@ == self.label(),
    {
        match self {
            Mode::ClientLocal => "client_local",
            Mode::SpLocal => "sp_local",
            Mode::Network => "network",
        }
    }

    /// The file that the runs of a mode are recorded in.
    pub open spec fn file(self) -> Seq<char> {
        match self {
            Mode::ClientLocal => "client_local.csv"@,
            Mode::SpLocal => "sp_runs.csv"@,
            Mode::Network => "e2e.csv"@,
        }
    }

    /// The file that the runs of a mode are recorded in.
    pub fn run_file(&self) -> (name: &'static str)
        ensures
            name@ == self.file(),
    {
        match self {
            Mode::ClientLocal => "client_local.csv",
            Mode::SpLocal => "sp_runs.csv",
            Mode::Network => "e2e.csv",
        }
    }
}

/// The addresses of a deployment.
#[derive(Debug)]
pub struct Endpoints {
    pub providers: Vec<String>,
    pub login_server: String,
}

/// The phases of both protocols, in the order in which they are run.
pub open spec fn catalogue() -> Seq<(Protocol, Phase)> {
    seq![
        (Protocol::UpSPA, Phase::Setup),
        (Protocol::TSPA, Phase::Registration),
        (Protocol::UpSPA, Phase::Registration),
        (Protocol::TSPA, Phase::Authentication),
        (Protocol::UpSPA, Phase::Authentication),
        (Protocol::UpSPA, Phase::SecretUpdate),
        (Protocol::UpSPA, Phase::PasswordUpdate),
    ]
}

/// The name that a scheme is selected by.
pub open spec fn scheme_name(protocol: Protocol) -> Seq<char> {
    match protocol {
        Protocol::UpSPA => "upspa"@,
        Protocol::TSPA => "tspa"@,
    }
}

fn scheme_text(protocol: Protocol) -> (name: &'static str)
    ensures
        name@ == scheme_name(protocol),
{
    match protocol {
        Protocol::UpSPA => "upspa",
        Protocol::TSPA => "tspa",
    }
}

/// The name that a phase is selected by.
pub open spec fn phase_key(phase: Phase) -> Seq<char> {
    match phase {
        Phase::Setup => "setup"@,
        Phase::Registration => "registration"@,
        Phase::Authentication => "authentication"@,
        Phase::SecretUpdate => "secretupdate"@,
        Phase::PasswordUpdate => "passwordupdate"@,
    }
}

fn phase_key_text(phase: Phase) -> (name: &'static str)
    ensures
        name@ == phase_key(phase),
{
    match phase {
        Phase::Setup => "setup",
        Phase::Registration => "registration",
        Phase::Authentication => "authentication",
        Phase::SecretUpdate => "secretupdate",
        Phase::PasswordUpdate => "passwordupdate",
    }
}

/// The small letter of a capital ASCII letter; every other byte is itself.
pub open spec fn small_letter(byte: u8) -> u8 {
    if 65 <= byte <= 90 {
        (byte + 32) as u8
    } else {
        byte
    }
}

/// A text in small letters, without hyphens and underscores.
pub open spec fn folded(text: Seq<u8>) -> Seq<u8>
    decreases text.len(),
{
    if text.len() == 0 {
        Seq::empty()
    } else {
        let front = folded(text.drop_last());
        if text.last() == 45 || text.last() == 95 {
            front
        } else {
            front.push(small_letter(text.last()))
        }
    }
}

fn fold(text: &[u8]) -> (result: Vec<u8>)
    ensures
        result@ == folded(text@),
{
    let mut result: Vec<u8> = Vec::new();
    let mut i: usize = 0;
    while i < text.len()
        invariant
            i <= text@.len(),
            result@ == folded(text@.take(i as int)),
        decreases text@.len() - i,
    {
        assert(text@.take(i + 1).drop_last() =~= text@.take(i as int));
        assert(text@.take(i + 1).last() == text@[i as int]);
        let byte: u8 = text[i];
        if byte != 45 && byte != 95 {
            if 65 <= byte && byte <= 90 {
                result.push(byte + 32);
            } else {
                result.push(byte);
            }
        }
        i += 1;
    }
    assert(text@.take(i as int) =~= text@);
    result
}

/// Whether a phase of a protocol is selected: the scheme is `all` or the protocol's
/// name, and the phase is `all` or the phase's name, whatever its case, hyphens and
/// underscores.
pub open spec fn is_selected(
    scheme: Seq<char>,
    selected: Seq<char>,
    entry: (Protocol, Phase),
) -> bool {
    &&& scheme == "all"@ || scheme == scheme_name(entry.0)
    &&& selected == "all"@ || folded(encode_utf8(selected)) == encode_utf8(phase_key(entry.1))
}

/// The selected ones among these phases.
pub open spec fn selection(
    scheme: Seq<char>,
    selected: Seq<char>,
    entries: Seq<(Protocol, Phase)>,
) -> Seq<(Protocol, Phase)>
    decreases entries.len(),
{
    if entries.len() == 0 {
        Seq::empty()
    } else {
        let front = selection(scheme, selected, entries.drop_last());
        if is_selected(scheme, selected, entries.last()) {
            front.push(entries.last())
        } else {
            front
        }
    }
}

/// What a choice of phases can give.
pub type PhaseResult = std::result::Result<Seq<(Protocol, Phase)>, Seq<char>>;

/// The phases that a choice of scheme and phase stands for.
pub open spec fn chosen_phases(scheme: Seq<char>, selected: Seq<char>) -> PhaseResult {
    if scheme != "all"@ && scheme != "upspa"@ && scheme != "tspa"@ {
        Err("invalid scheme"@)
    } else if selection(scheme, selected, catalogue()).len() == 0 {
        Err("no protocol phase matches"@)
    } else {
        Ok(selection(scheme, selected, catalogue()))
    }
}

/// The phases that a choice of scheme and phase stands for.
pub fn phases(scheme: &str, selected: &str) -> (result: Result<Vec<(Protocol, Phase)>>)
    ensures
        chosen_phases(scheme@, selected@) == (match result {
            Ok(list) => Ok::<Seq<(Protocol, Phase)>, Seq<char>>(list@),
            Err(error) => Err(error@),
        }),
{
    let every_scheme = same_text(scheme, "all");
    if !every_scheme && !same_text(scheme, "upspa") && !same_text(scheme, "tspa") {
        return Err(message("invalid scheme"));
    }
    let every_phase = same_text(selected, "all");
    let wanted = fold(selected.as_bytes());
    let all: [(Protocol, Phase); 7] = [
        (Protocol::UpSPA, Phase::Setup),
        (Protocol::TSPA, Phase::Registration),
        (Protocol::UpSPA, Phase::Registration),
        (Protocol::TSPA, Phase::Authentication),
        (Protocol::UpSPA, Phase::Authentication),
        (Protocol::UpSPA, Phase::SecretUpdate),
        (Protocol::UpSPA, Phase::PasswordUpdate),
    ];
    assert(all@ =~= catalogue());
    let mut result: Vec<(Protocol, Phase)> = Vec::new();
    let mut i: usize = 0;
    while i < 7
        invariant
            i <= 7,
            all@ == catalogue(),
            every_scheme == (scheme@ == "all"@),
            every_phase == (selected@ == "all"@),
            wanted@ == folded(encode_utf8(selected@)),
            result@ == selection(scheme@, selected@, catalogue().take(i as int)),
        decreases 7 - i,
    {
        proof {
            assert(catalogue().take(i + 1).drop_last() =~= catalogue().take(i as int));
            assert(catalogue().take(i + 1).last() == all@[i as int]);
        }
        let (protocol, phase) = all[i];
        if (every_scheme || same_text(scheme, scheme_text(protocol))) && (every_phase || same_bytes(
            wanted.as_slice(),
            phase_key_text(phase).as_bytes(),
        )) {
            result.push((protocol, phase));
        }
        i += 1;
    }
    assert(catalogue().take(7) =~= catalogue());
    if result.len() == 0 {
        return Err(message("no protocol phase matches"));
    }
    Ok(result)
}

/// What a benchmark run of a phase needs beforehand: a root for every UpSPA phase but
/// Setup, an account for those that use one, and a registration for a TSPA
/// authentication.
pub open spec fn prerequisites(protocol: Protocol, phase: Phase) -> Seq<Phase> {
    match (protocol, phase) {
        (Protocol::UpSPA, Phase::Setup) => seq![],
        (Protocol::UpSPA, Phase::Registration) => seq![Phase::Setup],
        (Protocol::UpSPA, Phase::PasswordUpdate) => seq![Phase::Setup],
        (Protocol::UpSPA, Phase::Authentication) => seq![Phase::Setup, Phase::Registration],
        (Protocol::UpSPA, Phase::SecretUpdate) => seq![Phase::Setup, Phase::Registration],
        (Protocol::TSPA, Phase::Authentication) => seq![Phase::Registration],
        (Protocol::TSPA, _) => seq![],
    }
}

/// The phases that have to be run, after a reset, before a phase can be measured.
pub fn fixture(protocol: Protocol, phase: Phase) -> (before: Vec<Phase>)
    ensures
        before@ == prerequisites(protocol, phase),
{
    let mut before: Vec<Phase> = Vec::new();
    match protocol {
        Protocol::UpSPA => {
            if phase != Phase::Setup {
                before.push(Phase::Setup);
            }
            if phase == Phase::Authentication || phase == Phase::SecretUpdate {
                before.push(Phase::Registration);
            }
        },
        Protocol::TSPA => {
            if phase == Phase::Authentication {
                before.push(Phase::Registration);
            }
        },
    }
    assert(before@ =~= prerequisites(protocol, phase));
    before
}

/// The user of a benchmark.
pub open spec fn bench_uid() -> Seq<u8> {
    encode_utf8("user123"@)
}

/// The password of a benchmark.
pub open spec fn bench_password() -> Seq<u8> {
    encode_utf8("benchmark password"@)
}

/// The password after a benchmarked update.
pub open spec fn bench_new_password() -> Seq<u8> {
    encode_utf8("updated benchmark password"@)
}

/// User, login server and login name of a benchmark.
pub open spec fn bench_names() -> Names {
    Names {
        uid: bench_uid(),
        ls: encode_utf8("LS1"@),
        login_uid: encode_utf8("stable-login-user"@),
    }
}

/// How a phase of a protocol starts.
pub open spec fn invoked(system: SystemModel, protocol: Protocol, phase: Phase) -> (
    SystemModel,
    StepModel,
) {
    let names = bench_names();
    match (protocol, phase) {
        (Protocol::UpSPA, Phase::Setup) => setup_started(
            system,
            bench_uid(),
            bench_password(),
        ),
        (Protocol::UpSPA, Phase::Registration) => phase_started(
            system,
            bench_uid(),
            bench_password(),
            Requirement::AllProviders,
            GoalModel::Register(names),
        ),
        (Protocol::UpSPA, Phase::Authentication) => phase_started(
            system,
            bench_uid(),
            bench_password(),
            Requirement::Threshold,
            GoalModel::Authenticate(names),
        ),
        (Protocol::UpSPA, Phase::SecretUpdate) => phase_started(
            system,
            bench_uid(),
            bench_password(),
            Requirement::AllProviders,
            GoalModel::Renew(names),
        ),
        (Protocol::UpSPA, Phase::PasswordUpdate) => phase_started(
            system,
            bench_uid(),
            bench_password(),
            Requirement::AllProviders,
            GoalModel::ChangePassword { uid: bench_uid(), password: bench_new_password() },
        ),
        (Protocol::TSPA, Phase::Registration) => tspa_registration_started(
            system,
            bench_uid(),
            bench_password(),
            names.ls,
            names.login_uid,
        ),
        (Protocol::TSPA, Phase::Authentication) => tspa_authentication_started(
            system,
            bench_uid(),
            bench_password(),
            names.ls,
            names.login_uid,
        ),
        _ => (system, StepModel::Done(Err("phase not defined by TSPA"@))),
    }
}

/// The client starts a phase of a protocol with the benchmark's user: its state and step,
/// and what the phase's own start says of them.
pub open spec fn invokes(
    system: SystemModel,
    protocol: Protocol,
    phase: Phase,
    next: SystemModel,
    step: StepModel,
) -> bool {
    let uid = bench_uid();
    let password = bench_password();
    let names = bench_names();
    &&& (next, step) == invoked(system, protocol, phase)
    &&& match (protocol, phase) {
        (Protocol::UpSPA, Phase::Setup) => sets_up(system, uid, password, next, step),
        (Protocol::UpSPA, _) => system.idle() ==> blinds(system.rng, password),
        (Protocol::TSPA, Phase::Registration) => registers_tspa(
            system,
            uid,
            password,
            names.ls,
            names.login_uid,
            next,
            step,
        ),
        (Protocol::TSPA, Phase::Authentication) => authenticates_tspa(
            system,
            uid,
            password,
            names.ls,
            names.login_uid,
            next,
            step,
        ),
        _ => true,
    }
}

/// Starts a phase of a protocol with the benchmark's user.
pub fn invoke(system: &mut System, protocol: Protocol, phase: Phase) -> (step: Step)
    requires
        old(system)@.wf(),
    ensures
        (final(system)@, step@) == invoked(old(system)@, protocol, phase),
        invokes(old(system)@, protocol, phase, final(system)@, step@),
        step@ matches StepModel::Run(_, next) ==> next.wf(),
{
    let uid = "user123".as_bytes();
    let password = "benchmark password".as_bytes();
    let ls = "LS1".as_bytes();
    let login_uid = "stable-login-user".as_bytes();
    match (protocol, phase) {
        (Protocol::UpSPA, Phase::Setup) => system.setup(uid, password),
        (Protocol::UpSPA, Phase::Registration) => system.registration(
            uid,
            password,
            ls,
            login_uid,
        ),
        (Protocol::UpSPA, Phase::Authentication) => system.authentication(
            uid,
            password,
            ls,
            login_uid,
        ),
        (Protocol::UpSPA, Phase::SecretUpdate) => system.secret_update(
            uid,
            password,
            ls,
            login_uid,
        ),
        (Protocol::UpSPA, Phase::PasswordUpdate) => system.password_update(
            uid,
            password,
            "updated benchmark password".as_bytes(),
        ),
        (Protocol::TSPA, Phase::Registration) => system.tspa_registration(
            uid,
            password,
            ls,
            login_uid,
        ),
        (Protocol::TSPA, Phase::Authentication) => system.tspa_authentication(
            uid,
            password,
            ls,
            login_uid,
        ),
        _ => Step::Done(Err(message("phase not defined by TSPA"))),
    }
}

/// The decimal digits of a number.
pub open spec fn digits(value: nat) -> Seq<u8>
    decreases value,
{
    if value < 10 {
        seq![(48 + value) as u8]
    } else {
        digits(value / 10).push((48 + value % 10) as u8)
    }
}

fn append_digits(buffer: &mut Vec<u8>, value: usize)
    ensures
        final(buffer)@ == old(buffer)@ + digits(value as nat),
    decreases value,
{
    if value >= 10 {
        append_digits(buffer, value / 10);
    }
    let digit: u8 = 48 + (value % 10) as u8;
    buffer.push(digit);
    assert(buffer@ =~= old(buffer)@ + digits(value as nat));
}

/// The name of a protocol.
pub open spec fn protocol_name(protocol: Protocol) -> Seq<char> {
    match protocol {
        Protocol::UpSPA => "UpSPA"@,
        Protocol::TSPA => "TSPA"@,
    }
}

/// The name of a protocol.
pub fn protocol_text(protocol: Protocol) -> (name: &'static str)
    ensures
        name@ == protocol_name(protocol),
{
    match protocol {
        Protocol::UpSPA => "UpSPA",
        Protocol::TSPA => "TSPA",
    }
}

/// The name of a phase.
pub open spec fn phase_name(phase: Phase) -> Seq<char> {
    match phase {
        Phase::Setup => "Setup"@,
        Phase::Registration => "Registration"@,
        Phase::Authentication => "Authentication"@,
        Phase::SecretUpdate => "SecretUpdate"@,
        Phase::PasswordUpdate => "PasswordUpdate"@,
    }
}

/// The name of a phase.
pub fn phase_text(phase: Phase) -> (name: &'static str)
    ensures
        name@ == phase_name(phase),
{
    match phase {
        Phase::Setup => "Setup",
        Phase::Registration => "Registration",
        Phase::Authentication => "Authentication",
        Phase::SecretUpdate => "SecretUpdate",
        Phase::PasswordUpdate => "PasswordUpdate",
    }
}

/// A field, a slash and the rest.
pub open spec fn slashed(field: Seq<u8>, rest: Seq<u8>) -> Seq<u8> {
    field.push(47) + rest
}

/// The text that identifies a run: protocol, phase, providers, threshold and iteration,
/// with slashes in between.
pub open spec fn run_label(
    protocol: Protocol,
    phase: Phase,
    n: nat,
    t: nat,
    iteration: nat,
) -> Seq<u8> {
    slashed(
        encode_utf8(protocol_name(protocol)),
        slashed(
            encode_utf8(phase_name(phase)),
            slashed(digits(n), slashed(digits(t), digits(iteration))),
        ),
    )
}

/// The seed of a run: the hash of the text that identifies it.
pub open spec fn seed_of_run(
    protocol: Protocol,
    phase: Phase,
    n: nat,
    t: nat,
    iteration: nat,
) -> Seq<u8> {
    blake3_hash(run_label(protocol, phase, n, t, iteration))
}

/// The seed of a run: the hash of the text that identifies it.
pub fn run_seed(
    protocol: Protocol,
    phase: Phase,
    n: usize,
    t: usize,
    iteration: usize,
) -> (seed: Key)
    ensures
        seed@ == seed_of_run(protocol, phase, n as nat, t as nat, iteration as nat),
{
    let mut text = copy_bytes(protocol_text(protocol).as_bytes());
    text.push(47);
    append_bytes(&mut text, phase_text(phase).as_bytes());
    text.push(47);
    append_digits(&mut text, n);
    text.push(47);
    append_digits(&mut text, t);
    text.push(47);
    append_digits(&mut text, iteration);
    assert(text@ =~= run_label(protocol, phase, n as nat, t as nat, iteration as nat));
    hash_bytes(text.as_slice())
}

/// No byte is a slash.
pub open spec fn without_slash(bytes: Seq<u8>) -> bool {
    forall|i: int| 0 <= i < bytes.len() ==> #[trigger] bytes[i] != 47
}

proof fn lemma_slashed_injective(a: Seq<u8>, x: Seq<u8>, b: Seq<u8>, y: Seq<u8>)
    requires
        without_slash(a),
        without_slash(b),
        slashed(a, x) == slashed(b, y),
    ensures
        a == b,
        x == y,
{
    let s = slashed(a, x);
    let u = slashed(b, y);
    assert(s[a.len() as int] == 47);
    assert(u[b.len() as int] == 47);
    if a.len() < b.len() {
        assert(u[a.len() as int] == b[a.len() as int]);
    }
    if b.len() < a.len() {
        assert(s[b.len() as int] == a[b.len() as int]);
    }
    assert(a.len() == b.len());
    assert forall|i: int| 0 <= i < a.len() implies a[i] == b[i] by {
        assert(s[i] == a[i] && u[i] == b[i]);
    }
    assert(a =~= b);
    assert(x =~= s.skip(a.len() as int + 1));
    assert(y =~= u.skip(b.len() as int + 1));
}

proof fn lemma_digits(value: nat)
    ensures
        without_slash(digits(value)),
        digits(value).len() >= 1,
        value >= 10 <==> digits(value).len() >= 2,
    decreases value,
{
    if value >= 10 {
        lemma_digits(value / 10);
    }
}

proof fn lemma_digits_injective(a: nat, b: nat)
    requires
        digits(a) == digits(b),
    ensures
        a == b,
    decreases a,
{
    lemma_digits(a);
    lemma_digits(b);
    if a < 10 {
        assert(digits(a)[0] == 48 + a);
        assert(digits(b)[0] == 48 + b);
    } else {
        assert(digits(a).last() == 48 + a % 10);
        assert(digits(b).last() == 48 + b % 10);
        assert(digits(a).drop_last() =~= digits(a / 10));
        assert(digits(b).drop_last() =~= digits(b / 10));
        lemma_digits_injective(a / 10, b / 10);
    }
}

proof fn lemma_plain_text(text: Seq<char>)
    requires
        forall|i: int| 0 <= i < text.len() ==> 'A' <= #[trigger] text[i] <= 'z',
    ensures
        without_slash(encode_utf8(text)),
{
    assert(is_ascii_chars(text));
    is_ascii_chars_encode_utf8(text);
    assert forall|i: int| 0 <= i < encode_utf8(text).len() implies #[trigger] encode_utf8(text)[i]
        != 47 by {
        assert(text[i] as u8 == encode_utf8(text)[i]);
    }
}

proof fn lemma_names(protocol: Protocol, phase: Phase)
    ensures
        without_slash(encode_utf8(protocol_name(protocol))),
        without_slash(encode_utf8(phase_name(phase))),
{
    reveal_strlit("UpSPA");
    reveal_strlit("TSPA");
    reveal_strlit("Setup");
    reveal_strlit("Registration");
    reveal_strlit("Authentication");
    reveal_strlit("SecretUpdate");
    reveal_strlit("PasswordUpdate");
    lemma_plain_text(protocol_name(protocol));
    lemma_plain_text(phase_name(phase));
}

proof fn lemma_names_differ(p: Protocol, q: Protocol, a: Phase, b: Phase)
    ensures
        protocol_name(p) == protocol_name(q) ==> p == q,
        phase_name(a) == phase_name(b) ==> a == b,
{
    reveal_strlit("UpSPA");
    reveal_strlit("TSPA");
    reveal_strlit("Setup");
    reveal_strlit("Registration");
    reveal_strlit("Authentication");
    reveal_strlit("SecretUpdate");
    reveal_strlit("PasswordUpdate");
    assert("UpSPA"@.len() == 5 && "TSPA"@.len() == 4);
    assert("Setup"@.len() == 5);
    assert("Registration"@[0] == 'R' && "SecretUpdate"@[0] == 'S');
    assert("Authentication"@[0] == 'A' && "PasswordUpdate"@[0] == 'P');
    assert("Registration"@.len() == 12 && "SecretUpdate"@.len() == 12);
    assert("Authentication"@.len() == 14 && "PasswordUpdate"@.len() == 14);
}

/// No two runs of a benchmark are seeded from the same text.
pub proof fn law_runs_are_seeded_apart(
    p: Protocol,
    a: Phase,
    n: nat,
    t: nat,
    i: nat,
    q: Protocol,
    b: Phase,
    m: nat,
    u: nat,
    j: nat,
)
    ensures
        run_label(p, a, n, t, i) == run_label(q, b, m, u, j) <==> p == q && a == b && n == m && t
            == u && i == j,
{
    if run_label(p, a, n, t, i) == run_label(q, b, m, u, j) {
        lemma_names(p, a);
        lemma_names(q, b);
        lemma_digits(n);
        lemma_digits(m);
        lemma_digits(t);
        lemma_digits(u);
        let x4 = digits(i);
        let y4 = digits(j);
        let x3 = slashed(digits(t), x4);
        let y3 = slashed(digits(u), y4);
        let x2 = slashed(digits(n), x3);
        let y2 = slashed(digits(m), y3);
        let x1 = slashed(encode_utf8(phase_name(a)), x2);
        let y1 = slashed(encode_utf8(phase_name(b)), y2);
        lemma_slashed_injective(
            encode_utf8(protocol_name(p)),
            x1,
            encode_utf8(protocol_name(q)),
            y1,
        );
        lemma_slashed_injective(encode_utf8(phase_name(a)), x2, encode_utf8(phase_name(b)), y2);
        lemma_slashed_injective(digits(n), x3, digits(m), y3);
        lemma_slashed_injective(digits(t), x4, digits(u), y4);
        lemma_digits_injective(n, m);
        lemma_digits_injective(t, u);
        lemma_digits_injective(i, j);
        encode_utf8_decode_utf8(protocol_name(p));
        encode_utf8_decode_utf8(protocol_name(q));
        encode_utf8_decode_utf8(phase_name(a));
        encode_utf8_decode_utf8(phase_name(b));
        lemma_names_differ(p, q, a, b);
    }
}

/// What a benchmark runs: the phases, and how often each before and while it is measured.
pub struct RunPlan {
    pub selected: Vec<(Protocol, Phase)>,
    pub warmup: usize,
    pub measured: usize,
}

/// What stands against a benchmark.
pub open spec fn run_objection(
    n_sp: usize,
    t_sp: usize,
    deadline_ms: u64,
    chosen: PhaseResult,
    measured: usize,
) -> Option<Seq<char>> {
    if !(1 <= t_sp <= n_sp <= 100) {
        Some("invalid deployment configuration"@)
    } else if deadline_ms == 0 {
        Some("deadline must be positive"@)
    } else {
        match chosen {
            Err(error) => Some(error),
            Ok(_) => if measured == 0 {
                Some("measured count must be positive"@)
            } else {
                None
            },
        }
    }
}

/// A number that may be left open.
pub open spec fn given_or(value: Option<usize>, otherwise: usize) -> usize {
    match value {
        Some(value) => value,
        None => otherwise,
    }
}

/// The phases of a benchmark and how often each is run before and while it is measured, or
/// what stands against it.
pub open spec fn planned(
    scheme: Seq<char>,
    phase: Seq<char>,
    n_sp: usize,
    t_sp: usize,
    deadline_ms: u64,
    warmup: Option<usize>,
    measured: Option<usize>,
) -> std::result::Result<(Seq<(Protocol, Phase)>, usize, usize), Seq<char>> {
    let chosen = chosen_phases(scheme, phase);
    let count = given_or(measured, 200);
    match run_objection(n_sp, t_sp, deadline_ms, chosen, count) {
        Some(error) => Err(error),
        None => Ok((chosen->Ok_0, given_or(warmup, 50), count)),
    }
}

/// Checks a benchmark's configuration. Fifty runs before and two hundred while measuring
/// are the default.
pub fn plan_run(
    scheme: &str,
    phase: &str,
    n_sp: usize,
    t_sp: usize,
    deadline_ms: u64,
    warmup: Option<usize>,
    measured: Option<usize>,
) -> (plan: Result<RunPlan>)
    ensures
        planned(scheme@, phase@, n_sp, t_sp, deadline_ms, warmup, measured) == (match plan {
            Ok(plan) => Ok((plan.selected@, plan.warmup, plan.measured)),
            Err(error) => Err(error@),
        }),
{
    if n_sp < 1 || n_sp > 100 || t_sp < 1 || t_sp > n_sp {
        return Err(message("invalid deployment configuration"));
    }
    if deadline_ms == 0 {
        return Err(message("deadline must be positive"));
    }
    let selected = match phases(scheme, phase) {
        Ok(selected) => selected,
        Err(error) => {
            return Err(error);
        },
    };
    let warmup: usize = match warmup {
        Some(count) => count,
        None => 50,
    };
    let measured: usize = match measured {
        Some(count) => count,
        None => 200,
    };
    if measured == 0 {
        return Err(message("measured count must be positive"));
    }
    Ok(RunPlan { selected, warmup, measured })
}

/// How often a phase is run in all.
pub open spec fn run_count(warmup: int, measured: int) -> int {
    warmup + measured
}

impl RunPlan {
    /// How often each phase is run: before measuring and while measuring.
    pub fn iterations(&self) -> (count: usize)
        requires
            self.warmup + self.measured <= usize::MAX,
        ensures
            count == run_count(self.warmup as int, self.measured as int),
    {
        self.warmup + self.measured
    }
}

/// How many runs failed.
pub open spec fn failures(results: Seq<bool>) -> nat
    decreases results.len(),
{
    if results.len() == 0 {
        0
    } else {
        failures(results.drop_last()) + (if results.last() {
            0nat
        } else {
            1nat
        })
    }
}

/// How many runs failed, before and while measuring.
pub fn count_failures(results: &[bool]) -> (count: usize)
    ensures
        count == failures(results@),
        count == 0 <==> forall|i: int| 0 <= i < results@.len() ==> #[trigger] results@[i],
{
    let mut count: usize = 0;
    let mut i: usize = 0;
    assert(results@.take(0) =~= Seq::<bool>::empty());
    while i < results.len()
        invariant
            i <= results@.len(),
            count == failures(results@.take(i as int)),
            count <= i,
            count == 0 <==> forall|k: int| 0 <= k < i ==> #[trigger] results@[k],
        decreases results@.len() - i,
    {
        proof {
            assert(results@.take(i + 1).drop_last() =~= results@.take(i as int));
            assert(results@.take(i + 1).last() == results@[i as int]);
        }
        if !results[i] {
            count += 1;
        }
        i += 1;
    }
    assert(results@.take(i as int) =~= results@);
    count
}

/// Whether a benchmark succeeded: exactly if no run failed.
pub open spec fn succeeds(results: Seq<bool>) -> bool {
    failures(results) == 0
}

/// Whether a benchmark succeeded: exactly if no run failed.
pub fn run_verdict(results: &[bool]) -> (ok: bool)
    ensures
        ok == succeeds(results@),
        ok == forall|i: int| 0 <= i < results@.len() ==> #[trigger] results@[i],
{
    count_failures(results) == 0
}

/// A socket address: its IPv4 octets, if it is one, and its port.
#[derive(Clone, Copy, Debug, PartialEq, Eq)]
pub struct Address {
    pub octets: Option<[u8; 4]>,
    pub port: u16,
}

/// An address of the benchmark's network, by its last octet.
pub open spec fn in_namespace(address: Address, last: int) -> bool {
    address.octets matches Some(octets) && octets@ == seq![10u8, 210, 0, last as u8]
}

fn is_in_namespace(address: &Address, last: u8) -> (inside: bool)
    ensures
        inside == in_namespace(*address, last as int),
{
    match address.octets {
        Some(octets) => {
            let inside = octets[0] == 10 && octets[1] == 210 && octets[2] == 0 && octets[3] == last;
            assert(inside ==> octets@ =~= seq![10u8, 210, 0, last]);
            inside
        },
        None => false,
    }
}

/// The provider addresses that were accepted so far.
pub struct EndpointCheck {
    pub accepted: Vec<Address>,
}

/// What stands against the next provider address.
pub open spec fn endpoint_objection(accepted: Seq<Address>, address: Address) -> Option<Seq<char>> {
    if !in_namespace(address, accepted.len() as int + 11) {
        Some("provider endpoint must use namespace address"@)
    } else if exists|i: int|
        0 <= i < accepted.len() && (#[trigger] accepted[i]).port == address.port && in_namespace(
            accepted[i],
            accepted.len() as int + 11,
        ) {
        Some("duplicate endpoint"@)
    } else {
        None
    }
}

/// The provider that the next accepted address belongs to.
pub open spec fn next_provider(accepted: Seq<Address>) -> Target {
    Target::Provider((accepted.len() + 1) as u32)
}

impl EndpointCheck {
    /// No address was accepted yet.
    pub fn new() -> (check: Self)
        ensures
            check.accepted@ == Seq::<Address>::empty(),
    {
        EndpointCheck { accepted: Vec::new() }
    }

    /// Accepts the address of the next provider: the one that the network gives to it,
    /// and none that was accepted before.
    pub fn accept(&mut self, address: Address) -> (target: Result<Target>)
        requires
            old(self).accepted@.len() <= 244,
        ensures
            match target {
                Ok(target) => endpoint_objection(old(self).accepted@, address) is None && target
                    == next_provider(old(self).accepted@) && final(self).accepted@ == old(
                    self,
                ).accepted@.push(address),
                Err(error) => endpoint_objection(old(self).accepted@, address) == Some(error@)
                    && final(self).accepted@ == old(self).accepted@,
            },
    {
        let index = self.accepted.len();
        let last: u8 = (index + 11) as u8;
        if !is_in_namespace(&address, last) {
            return Err(message("provider endpoint must use namespace address"));
        }
        let mut i: usize = 0;
        while i < index
            invariant
                i <= index == self.accepted@.len(),
                last == index + 11,
                in_namespace(address, last as int),
                self.accepted@ == old(self).accepted@,
                forall|k: int|
                    0 <= k < i ==> !((#[trigger] self.accepted@[k]).port == address.port
                        && in_namespace(self.accepted@[k], last as int)),
            decreases index - i,
        {
            if self.accepted[i].port == address.port && is_in_namespace(&self.accepted[i], last) {
                return Err(message("duplicate endpoint"));
            }
            i += 1;
        }
        self.accepted.push(address);
        Ok(Target::Provider(index as u32 + 1))
    }
}

/// What stands against the number of providers that a deployment names.
pub open spec fn count_objection(named: int, n_sp: int) -> Option<Seq<char>> {
    if named == n_sp {
        None
    } else {
        Some("endpoint count differs from n_sp"@)
    }
}

/// Checks how many providers a deployment names.
pub fn check_provider_count(endpoints: &Endpoints, n_sp: usize) -> (result: Result<()>)
    ensures
        count_objection(endpoints.providers@.len() as int, n_sp as int) == (match result {
            Ok(_) => None,
            Err(error) => Some(error@),
        }),
{
    if endpoints.providers.len() != n_sp {
        return Err(message("endpoint count differs from n_sp"));
    }
    Ok(())
}

/// What stands against the address of the login server.
pub open spec fn login_server_objection(address: Address) -> Option<Seq<char>> {
    if in_namespace(address, 200) {
        None
    } else {
        Some("LS must use namespace address"@)
    }
}

/// Checks the address of the login server.
pub fn check_login_server(address: &Address) -> (result: Result<()>)
    ensures
        login_server_objection(*address) == (match result {
            Ok(_) => None,
            Err(error) => Some(error@),
        }),
{
    if !is_in_namespace(address, 200) {
        return Err(message("LS must use namespace address"));
    }
    Ok(())
}

/// The traffic of a call in one direction.
pub open spec fn traffic(call: CallSample, outgoing: bool) -> Option<u64> {
    if outgoing {
        call.bytes_sent
    } else {
        call.bytes_received
    }
}

/// The sum of the traffic of calls, if it is known of all of them.
pub open spec fn total_traffic(calls: Seq<CallSample>, outgoing: bool) -> Option<int>
    decreases calls.len(),
{
    if calls.len() == 0 {
        Some(0)
    } else {
        match (
            total_traffic(calls.drop_last(), outgoing),
            traffic(calls.last(), outgoing),
        ) {
            (Some(sum), Some(bytes)) => Some(sum + bytes),
            _ => None,
        }
    }
}

proof fn lemma_unknown_traffic(calls: Seq<CallSample>, outgoing: bool, k: int)
    requires
        0 <= k <= calls.len(),
        total_traffic(calls.take(k), outgoing) is None,
    ensures
        total_traffic(calls, outgoing) is None,
    decreases calls.len() - k,
{
    if k == calls.len() {
        assert(calls.take(k) =~= calls);
    } else {
        assert(calls.take(k + 1).drop_last() =~= calls.take(k));
        lemma_unknown_traffic(calls, outgoing, k + 1);
    }
}

/// The sum of the traffic of calls in one direction, modulo the range of the counter. It
/// is unknown if it is unknown of any call.
pub fn sum_bytes(calls: &[CallSample], outgoing: bool) -> (sum: Option<u64>)
    ensures
        match (sum, total_traffic(calls@, outgoing)) {
            (Some(sum), Some(total)) => sum as int == total % 0x1_0000_0000_0000_0000,
            (None, None) => true,
            _ => false,
        },
{
    let mut sum: u64 = 0;
    let mut i: usize = 0;
    assert(calls@.take(0) =~= Seq::<CallSample>::empty());
    while i < calls.len()
        invariant
            i <= calls@.len(),
            total_traffic(calls@.take(i as int), outgoing) matches Some(total) && sum as int
                == total % 0x1_0000_0000_0000_0000,
        decreases calls@.len() - i,
    {
        proof {
            assert(calls@.take(i + 1).drop_last() =~= calls@.take(i as int));
            assert(calls@.take(i + 1).last() == calls@[i as int]);
        }
        let bytes = if outgoing {
            calls[i].bytes_sent
        } else {
            calls[i].bytes_received
        };
        match bytes {
            Some(bytes) => {
                sum = sum.wrapping_add(bytes);
            },
            None => {
                proof {
                    lemma_unknown_traffic(calls@, outgoing, i + 1);
                }
                return None;
            },
        }
        i += 1;
    }
    assert(calls@.take(i as int) =~= calls@);
    Some(sum)
}

/// The messages of calls: a request and a response wherever the traffic is known.
pub open spec fn message_count(calls: Seq<CallSample>) -> int
    decreases calls.len(),
{
    if calls.len() == 0 {
        0
    } else {
        message_count(calls.drop_last()) + (if calls.last().bytes_sent is Some {
            1int
        } else {
            0
        }) + (if calls.last().bytes_received is Some {
            1int
        } else {
            0
        })
    }
}

/// The messages of calls.
pub fn application_messages(calls: &[CallSample]) -> (count: usize)
    requires
        2 * calls@.len() <= usize::MAX,
    ensures
        count == message_count(calls@),
{
    let mut count: usize = 0;
    let mut i: usize = 0;
    assert(calls@.take(0) =~= Seq::<CallSample>::empty());
    while i < calls.len()
        invariant
            i <= calls@.len(),
            2 * calls@.len() <= usize::MAX,
            count == message_count(calls@.take(i as int)),
            count <= 2 * i,
        decreases calls@.len() - i,
    {
        proof {
            assert(calls@.take(i + 1).drop_last() =~= calls@.take(i as int));
            assert(calls@.take(i + 1).last() == calls@[i as int]);
        }
        if calls[i].bytes_sent.is_some() {
            count += 1;
        }
        if calls[i].bytes_received.is_some() {
            count += 1;
        }
        i += 1;
    }
    assert(calls@.take(i as int) =~= calls@);
    count
}

/// The durations of the stages of a name, in the order of the stages.
pub open spec fn durations(stages: Seq<StageSample>, name: Seq<char>) -> Seq<u64>
    decreases stages.len(),
{
    if stages.len() == 0 {
        Seq::empty()
    } else {
        let front = durations(stages.drop_last(), name);
        if stages.last().stage@ == name {
            front.push(stages.last().elapsed_ns)
        } else {
            front
        }
    }
}

fn stage_durations(stages: &[StageSample], kind: StageKind) -> (times: Vec<u64>)
    ensures
        times@ == durations(stages@, kind.label()),
{
    let mut times: Vec<u64> = Vec::new();
    let mut i: usize = 0;
    while i < stages.len()
        invariant
            i <= stages@.len(),
            times@ == durations(stages@.take(i as int), kind.label()),
        decreases stages@.len() - i,
    {
        proof {
            assert(stages@.take(i + 1).drop_last() =~= stages@.take(i as int));
            assert(stages@.take(i + 1).last() == stages@[i as int]);
        }
        if same_text(stages[i].stage.as_str(), kind.name()) {
            times.push(stages[i].elapsed_ns);
        }
        i += 1;
    }
    assert(stages@.take(i as int) =~= stages@);
    times
}

/// The figures of a run in nanoseconds, bytes and counts. What a mode does not measure is
/// left out.
pub struct RunFigures {
    pub client_local_ns: Option<u64>,
    pub total_e2e_ns: Option<u64>,
    pub bytes_sent: Option<u64>,
    pub bytes_received: Option<u64>,
    pub application_messages: usize,
    pub causal_network_stages: usize,
    pub identification_ns: Vec<u64>,
    pub account_recovery_ns: Vec<u64>,
    pub provider_prepare_ns: Vec<u64>,
    pub ls_interaction_ns: Vec<u64>,
    pub finalization_ns: Vec<u64>,
}

/// Model of [`RunFigures`].
pub struct FiguresModel {
    pub client_local_ns: Option<u64>,
    pub total_e2e_ns: Option<u64>,
    pub bytes_sent: Option<int>,
    pub bytes_received: Option<int>,
    pub application_messages: int,
    pub causal_network_stages: int,
    pub identification_ns: Seq<u64>,
    pub account_recovery_ns: Seq<u64>,
    pub provider_prepare_ns: Seq<u64>,
    pub ls_interaction_ns: Seq<u64>,
    pub finalization_ns: Seq<u64>,
}

impl View for RunFigures {
    type V = FiguresModel;

    open spec fn view(&self) -> FiguresModel {
        FiguresModel {
            client_local_ns: self.client_local_ns,
            total_e2e_ns: self.total_e2e_ns,
            bytes_sent: known(self.bytes_sent),
            bytes_received: known(self.bytes_received),
            application_messages: self.application_messages as int,
            causal_network_stages: self.causal_network_stages as int,
            identification_ns: self.identification_ns@,
            account_recovery_ns: self.account_recovery_ns@,
            provider_prepare_ns: self.provider_prepare_ns@,
            ls_interaction_ns: self.ls_interaction_ns@,
            finalization_ns: self.finalization_ns@,
        }
    }
}

/// The figures of a run from its records and, if the phase was started, the time it took.
pub open spec fn figures_of(
    mode: Mode,
    elapsed_ns: Option<u64>,
    client_ns: u64,
    stages: Seq<StageSample>,
    calls: Seq<CallSample>,
) -> FiguresModel {
    FiguresModel {
        client_local_ns: reported_client_time(mode, elapsed_ns, client_ns),
        total_e2e_ns: reported_time(mode, elapsed_ns),
        bytes_sent: reported_traffic(mode, calls, true),
        bytes_received: reported_traffic(mode, calls, false),
        application_messages: message_count(calls),
        causal_network_stages: stages.len() as int,
        identification_ns: durations(stages, "identification"@),
        account_recovery_ns: durations(stages, "account_recovery"@),
        provider_prepare_ns: durations(stages, "provider_prepare"@),
        ls_interaction_ns: durations(stages, "ls_interaction"@),
        finalization_ns: durations(stages, "finalization"@),
    }
}

/// The traffic that a run reports: only a network run does, and only if it is known of
/// every call.
pub open spec fn reported_traffic(
    mode: Mode,
    calls: Seq<CallSample>,
    outgoing: bool,
) -> Option<int> {
    if mode == Mode::Network {
        match total_traffic(calls, outgoing) {
            Some(total) => Some(total % 0x1_0000_0000_0000_0000),
            None => None,
        }
    } else {
        None
    }
}

/// The client's own time that a run reports: only a client run that was started does.
pub open spec fn reported_client_time(mode: Mode, elapsed_ns: Option<u64>, client_ns: u64) -> Option<
    u64,
> {
    if mode == Mode::ClientLocal && elapsed_ns is Some {
        Some(client_ns)
    } else {
        None
    }
}

/// The time from end to end that a run reports: only a network run does.
pub open spec fn reported_time(mode: Mode, elapsed_ns: Option<u64>) -> Option<u64> {
    if mode == Mode::Network {
        elapsed_ns
    } else {
        None
    }
}

/// A number that may be unknown, as an integer.
pub open spec fn known(value: Option<u64>) -> Option<int> {
    match value {
        Some(value) => Some(value as int),
        None => None,
    }
}

/// The figures of a run from its trace and, if the phase was started, the time it took.
pub fn run_figures(mode: Mode, elapsed_ns: Option<u64>, trace: &Trace) -> (figures: RunFigures)
    requires
        2 * trace.calls@.len() <= usize::MAX,
    ensures
        figures@ == figures_of(
            mode,
            elapsed_ns,
            trace.client_ns,
            trace.stages@,
            trace.calls@,
        ),
{
    let stages = trace.stages.as_slice();
    let calls = trace.calls.as_slice();
    let network = mode == Mode::Network;
    RunFigures {
        client_local_ns: if mode == Mode::ClientLocal && elapsed_ns.is_some() {
            Some(trace.client_ns)
        } else {
            None
        },
        total_e2e_ns: if network {
            elapsed_ns
        } else {
            None
        },
        bytes_sent: if network {
            sum_bytes(calls, true)
        } else {
            None
        },
        bytes_received: if network {
            sum_bytes(calls, false)
        } else {
            None
        },
        application_messages: application_messages(calls),
        causal_network_stages: trace.stages.len(),
        identification_ns: stage_durations(stages, StageKind::Identification),
        account_recovery_ns: stage_durations(stages, StageKind::AccountRecovery),
        provider_prepare_ns: stage_durations(stages, StageKind::ProviderPrepare),
        ls_interaction_ns: stage_durations(stages, StageKind::LsInteraction),
        finalization_ns: stage_durations(stages, StageKind::Finalization),
    }
}

/// The index of a measured run; the runs before are not measured.
pub open spec fn measured_index(iteration: usize, warmup: usize) -> Option<usize> {
    if iteration < warmup {
        None
    } else {
        Some((iteration - warmup) as usize)
    }
}

/// The index of a measured run; the runs before are not measured.
pub fn run_index(iteration: usize, warmup: usize) -> (index: Option<usize>)
    ensures
        index == measured_index(iteration, warmup),
{
    if iteration < warmup {
        None
    } else {
        Some(iteration - warmup)
    }
}

} // verus!
