//! The supervisor of the secondary bearer: it keeps the IMS bearer up while the feature is
//! enabled, registers on it and has short messages received.
use vstd::prelude::*;
use crate::error::ImsError;
use crate::ims_sip;
use crate::ims_sip::parse_pcscf_from_cgcontrdp;
use crate::ims_uim;
use crate::ims_uim::{build_csim_command, extract_csim_hex, parse_aid_from_select_response};
use crate::ipv6;
use crate::ipv6::Ipv6Addr;
use crate::number;
use crate::secondary_qmi;
use crate::secondary_qmi::nonblank;
use crate::text;
use crate::text::{chars_of, string_of, trimmed};
use crate::volte;
use crate::volte::{secondary_netdev, QmiBearerSettings, RuntimeStatus};

verus! {

/// The access point of the IMS network.
pub const IMS_APN: &'static str = "ims";

/// The command that selects the application of the USIM.
pub const SELECT_USIM: &'static str = "00A4040007A0000000871002";

/// The command that has the modem report the P-CSCF.
pub const PCSCF_QUERY: &'static str = "AT+CGCONTRDP";

// ---------------------------------------------------------------------------------------------
// The runtime snapshot
// ---------------------------------------------------------------------------------------------
/// The runtime snapshot as a mathematical value.
#[verifier::ext_equal]
pub struct StatusModel {
    pub phase: Seq<char>,
    pub registered: bool,
    pub sms_ready: bool,
    pub transport: Seq<char>,
    pub interface: Seq<char>,
    pub last_error: Seq<char>,
}

impl View for RuntimeStatus {
    type V = StatusModel;

    open spec fn view(&self) -> StatusModel {
        StatusModel {
            phase: self.phase@,
            registered: self.registered,
            sms_ready: self.sms_ready,
            transport: self.transport@,
            interface: self.interface@,
            last_error: self.last_error@,
        }
    }
}

/// The snapshot of a runtime that is not registered.
pub open spec fn unregistered(
    phase: Seq<char>,
    transport: Seq<char>,
    interface: Seq<char>,
    last_error: Seq<char>,
) -> StatusModel {
    StatusModel {
        phase,
        registered: false,
        sms_ready: false,
        transport,
        interface,
        last_error,
    }
}

fn unregistered_status(phase: &str, transport: &str, interface: &str, last_error: &str) -> (s:
    RuntimeStatus)
    ensures
        s@ == unregistered(phase@, transport@, interface@, last_error@),
{
    RuntimeStatus {
        phase: phase.to_owned(),
        registered: false,
        sms_ready: false,
        transport: transport.to_owned(),
        interface: interface.to_owned(),
        last_error: last_error.to_owned(),
    }
}

/// The snapshot of a runtime that is registered.
pub open spec fn registered(sms_ready: bool, interface: Seq<char>) -> StatusModel {
    StatusModel {
        phase: "registered"@,
        registered: true,
        sms_ready,
        transport: "native_qmi_ipsec"@,
        interface,
        last_error: ""@,
    }
}

/// The snapshot of a runtime that something went wrong with.
pub open spec fn degraded(interface: Seq<char>, last_error: Seq<char>) -> StatusModel {
    unregistered("degraded"@, "native_qmi"@, interface, last_error)
}

// ---------------------------------------------------------------------------------------------
// States, events and effects
// ---------------------------------------------------------------------------------------------
/// An attempt to register on a bearer that was started. `T` is the type of texts.
#[derive(Debug, PartialEq, Eq)]
pub struct Attempt<T> {
    pub sms_enabled: bool,
    pub netdev: T,
    pub settings: QmiBearerSettings,
}

/// What the supervisor waits for. `T` is the type of texts and `A` that of addresses.
#[derive(Debug, PartialEq, Eq)]
pub enum Query<T, A> {
    /// Read the configuration.
    ReadConfig,
    /// Find the device of the secondary endpoint; short messages are enabled or not.
    ReadDevice(bool),
    /// Start the bearer on the device, with the given network interface.
    StartBearer(bool, T, T),
    /// Find the modem, to select the application of the USIM.
    FindModem(Attempt<T>),
    /// Send the command to the USIM.
    SelectUsim(Attempt<T>, T),
    /// Find the modem, to ask for the P-CSCF.
    FindModemAgain(Attempt<T>),
    /// Ask the modem for the P-CSCF.
    QueryPcscf(Attempt<T>),
    /// Set the network interface up for the P-CSCF.
    Configure(Attempt<T>, A),
    /// Register with the P-CSCF.
    Register(Attempt<T>, A),
    /// See whether the bearer on the device is connected.
    CheckConnected(T),
}

/// What came of a query.
#[derive(Debug, PartialEq, Eq)]
pub enum Event {
    /// The configuration.
    Config { feature_enabled: bool, sms_enabled: bool },
    /// The setting for the device, the contents of the file that names it and the setting for
    /// the network interface.
    Device { configured: Option<String>, published: Option<String>, netdev: Option<String> },
    /// The bearer was started.
    Started(Result<(String, QmiBearerSettings), ImsError>),
    /// The modem was looked for.
    Modem(Result<(), String>),
    /// The modem answered.
    Answer(Result<String, String>),
    /// The network interface was set up.
    Configured(Result<(), ImsError>),
    /// The registration is over.
    Registration(Result<(), ImsError>),
    /// Whether the bearer is connected.
    Connection(Result<bool, ImsError>),
}

/// What is done without waiting for a result. `T` is the type of texts, `A` that of addresses
/// and `S` that of snapshots.
#[derive(Debug, PartialEq, Eq)]
pub enum Effect<T, A, S> {
    /// Stop receiving short messages.
    AbortListener,
    /// Stop the bearer on the device, with the given handle.
    StopBearer(T, T),
    /// Write the runtime snapshot.
    WriteStatus(S),
    /// Wait for so many seconds.
    Sleep(u64),
    /// Receive short messages at the address.
    SpawnListener(A),
}

/// An effect as a mathematical value.
pub type EffectModel = Effect<Seq<char>, Seq<u16>, StatusModel>;

impl Effect<String, Ipv6Addr, RuntimeStatus> {
    /// The effect as a mathematical value.
    pub open spec fn model(self) -> EffectModel {
        match self {
            Effect::AbortListener => Effect::AbortListener,
            Effect::StopBearer(device, handle) => Effect::StopBearer(device@, handle@),
            Effect::WriteStatus(status) => Effect::WriteStatus(status@),
            Effect::Sleep(seconds) => Effect::Sleep(seconds),
            Effect::SpawnListener(local) => Effect::SpawnListener(local@),
        }
    }
}

/// Effects as mathematical values.
pub open spec fn effects_view(v: Seq<Effect<String, Ipv6Addr, RuntimeStatus>>) -> Seq<EffectModel> {
    v.map_values(|effect: Effect<String, Ipv6Addr, RuntimeStatus>| effect.model())
}

impl Attempt<String> {
    /// The attempt as a mathematical value.
    pub open spec fn model(self) -> Attempt<Seq<char>> {
        Attempt {
            sms_enabled: self.sms_enabled,
            netdev: self.netdev@,
            settings: self.settings,
        }
    }
}

impl Query<String, Ipv6Addr> {
    /// The query as a mathematical value.
    pub open spec fn model(self) -> Query<Seq<char>, Seq<u16>> {
        match self {
            Query::ReadConfig => Query::ReadConfig,
            Query::ReadDevice(sms_enabled) => Query::ReadDevice(sms_enabled),
            Query::StartBearer(sms_enabled, device, netdev) => Query::StartBearer(
                sms_enabled,
                device@,
                netdev@,
            ),
            Query::FindModem(attempt) => Query::FindModem(attempt.model()),
            Query::SelectUsim(attempt, command) => Query::SelectUsim(attempt.model(), command@),
            Query::FindModemAgain(attempt) => Query::FindModemAgain(attempt.model()),
            Query::QueryPcscf(attempt) => Query::QueryPcscf(attempt.model()),
            Query::Configure(attempt, pcscf) => Query::Configure(attempt.model(), pcscf@),
            Query::Register(attempt, pcscf) => Query::Register(attempt.model(), pcscf@),
            Query::CheckConnected(device) => Query::CheckConnected(device@),
        }
    }
}

/// The supervisor: the device and the handle of the bearer that it has started, whether it has
/// short messages received, and what it waits for.
#[derive(Debug, PartialEq, Eq)]
pub struct Supervisor {
    active: Option<(String, String)>,
    listening: bool,
    query: Query<String, Ipv6Addr>,
}

/// The supervisor as a mathematical value.
pub struct SupervisorModel {
    pub active: Option<(Seq<char>, Seq<char>)>,
    pub listening: bool,
    pub query: Query<Seq<char>, Seq<u16>>,
}

impl View for Supervisor {
    type V = SupervisorModel;

    closed spec fn view(&self) -> SupervisorModel {
        SupervisorModel {
            active: match self.active {
                Some((device, handle)) => Some((device@, handle@)),
                None => None,
            },
            listening: self.listening,
            query: self.query.model(),
        }
    }
}

// ---------------------------------------------------------------------------------------------
// The steps
// ---------------------------------------------------------------------------------------------
impl SupervisorModel {
    /// The supervisor waits for something else.
    pub open spec fn waiting_for(self, query: Query<Seq<char>, Seq<u16>>) -> SupervisorModel {
        SupervisorModel { active: self.active, listening: self.listening, query }
    }

    /// The supervisor without a bearer.
    pub open spec fn idle() -> SupervisorModel {
        SupervisorModel { active: None, listening: false, query: Query::ReadConfig }
    }

    /// What takes down the bearer and the reception of short messages, as far as they are there.
    pub open spec fn teardown(self) -> Seq<EffectModel> {
        let first: Seq<EffectModel> = if self.listening {
            seq![Effect::AbortListener]
        } else {
            Seq::empty()
        };
        match self.active {
            Some((device, handle)) => first.push(Effect::StopBearer(device, handle)),
            None => first,
        }
    }

    /// The attempt is given up: what it has set up is taken down.
    pub open spec fn give_up(self, before: Seq<EffectModel>, netdev: Seq<char>) -> (
        SupervisorModel,
        Seq<EffectModel>,
    ) {
        (
            SupervisorModel::idle(),
            (before + self.teardown()).push(Effect::WriteStatus(degraded(netdev, ""@))),
        )
    }

    /// The configuration has been read.
    pub open spec fn after_config(self, feature_enabled: bool, sms_enabled: bool) -> (
        SupervisorModel,
        Seq<EffectModel>,
    ) {
        if !feature_enabled {
            (
                SupervisorModel::idle(),
                self.teardown().push(
                    Effect::WriteStatus(unregistered("disabled"@, "native_qmi"@, ""@, ""@)),
                ).push(Effect::Sleep(10)),
            )
        } else {
            match self.active {
                None => (self.waiting_for(Query::ReadDevice(sms_enabled)), Seq::empty()),
                Some((device, _)) => (
                    self.waiting_for(Query::CheckConnected(device)),
                    Seq::empty(),
                ),
            }
        }
    }

    /// The device has been looked for.
    pub open spec fn after_device(
        self,
        sms_enabled: bool,
        device: Option<Seq<char>>,
        netdev: Option<Seq<char>>,
    ) -> (SupervisorModel, Seq<EffectModel>) {
        match device {
            None => (
                self.waiting_for(Query::ReadConfig),
                seq![
                    Effect::WriteStatus(
                        unregistered(
                            "waiting_for_secondary_qmi"@,
                            "native_qmi"@,
                            ""@,
                            "secondary QMI device is unavailable"@,
                        ),
                    ),
                    Effect::Sleep(5),
                ],
            ),
            Some(device) => {
                let interface = volte::netdev_of(netdev, device);
                (
                    self.waiting_for(Query::StartBearer(sms_enabled, device, interface)),
                    seq![
                        Effect::WriteStatus(
                            unregistered("starting_ims_bearer"@, "native_qmi"@, interface, ""@),
                        ),
                    ],
                )
            },
        }
    }

    /// The bearer has been started, or it has not.
    pub open spec fn after_start(
        self,
        sms_enabled: bool,
        device: Seq<char>,
        netdev: Seq<char>,
        started: Result<(String, QmiBearerSettings), ImsError>,
    ) -> (SupervisorModel, Seq<EffectModel>) {
        match started {
            Ok((handle, settings)) => (
                SupervisorModel {
                    active: Some((device, handle@)),
                    listening: self.listening,
                    query: Query::FindModem(Attempt { sms_enabled, netdev, settings }),
                },
                seq![
                    Effect::WriteStatus(
                        unregistered("usim_aid_selecting"@, "native_qmi"@, ""@, ""@),
                    ),
                ],
            ),
            Err(e) => (
                self.waiting_for(Query::ReadConfig),
                seq![Effect::WriteStatus(degraded(""@, e.text())), Effect::Sleep(5)],
            ),
        }
    }

    /// The P-CSCF has been asked for.
    pub open spec fn after_pcscf(self, attempt: Attempt<Seq<char>>, pcscf: Option<Seq<u16>>) -> (
        SupervisorModel,
        Seq<EffectModel>,
    ) {
        match pcscf {
            Some(address) => (
                self.waiting_for(Query::Configure(attempt, address)),
                seq![
                    Effect::WriteStatus(
                        unregistered("pcscf_discovered"@, "native_qmi"@, ""@, ""@),
                    ),
                    Effect::WriteStatus(
                        unregistered(
                            "ims_registering"@,
                            "native_qmi_ipsec"@,
                            attempt.netdev,
                            ""@,
                        ),
                    ),
                ],
            ),
            None => self.give_up(Seq::empty(), attempt.netdev),
        }
    }

    /// The registration is over.
    pub open spec fn after_registration(
        self,
        attempt: Attempt<Seq<char>>,
        outcome: Result<(), ImsError>,
    ) -> (SupervisorModel, Seq<EffectModel>) {
        match outcome {
            Ok(_) => {
                let local = ipv6::parse_ipv6(attempt.settings.ipv6_address@);
                let listens = attempt.sms_enabled && local is Some;
                let first: Seq<EffectModel> = if listens {
                    seq![Effect::SpawnListener(local->0)]
                } else {
                    Seq::empty()
                };
                (
                    SupervisorModel {
                        active: self.active,
                        listening: self.listening || listens,
                        query: Query::ReadConfig,
                    },
                    first.push(
                        Effect::WriteStatus(registered(attempt.sms_enabled, attempt.netdev)),
                    ),
                )
            },
            Err(e) => self.give_up(
                seq![
                    Effect::WriteStatus(
                        unregistered("degraded"@, "native_qmi_ipsec"@, ""@, e.text()),
                    ),
                ],
                attempt.netdev,
            ),
        }
    }

    /// It has been seen whether the bearer is connected.
    pub open spec fn after_check(self, connection: Result<bool, ImsError>) -> (
        SupervisorModel,
        Seq<EffectModel>,
    ) {
        if connection is Ok && connection->Ok_0 {
            (self.waiting_for(Query::ReadConfig), seq![Effect::Sleep(10)])
        } else {
            (
                SupervisorModel::idle(),
                self.teardown().push(Effect::WriteStatus(degraded(""@, ""@))),
            )
        }
    }

    /// What the supervisor does when an event comes, and what it then waits for. An event that
    /// does not belong to the query is ignored.
    pub open spec fn step(self, event: Event) -> (SupervisorModel, Seq<EffectModel>) {
        match (self.query, event) {
            (Query::ReadConfig, Event::Config { feature_enabled, sms_enabled }) => self.after_config(
                feature_enabled,
                sms_enabled,
            ),
            (
                Query::ReadDevice(sms_enabled),
                Event::Device { configured, published, netdev },
            ) => self.after_device(
                sms_enabled,
                device_of(
                    secondary_qmi::text_view(configured),
                    secondary_qmi::text_view(published),
                ),
                secondary_qmi::text_view(netdev),
            ),
            (
                Query::StartBearer(sms_enabled, device, netdev),
                Event::Started(started),
            ) => self.after_start(sms_enabled, device, netdev, started),
            (Query::FindModem(attempt), Event::Modem(Ok(_))) => (
                self.waiting_for(
                    Query::SelectUsim(attempt, ims_uim::csim_command(SELECT_USIM@)),
                ),
                Seq::empty(),
            ),
            (Query::FindModem(attempt), Event::Modem(Err(reason))) => (
                self.waiting_for(Query::FindModemAgain(attempt)),
                seq![Effect::WriteStatus(degraded(""@, reason@))],
            ),
            (Query::SelectUsim(attempt, _), Event::Answer(Ok(response))) => (
                self.waiting_for(Query::FindModemAgain(attempt)),
                match aid_defect(response@) {
                    Some(e) => seq![Effect::WriteStatus(degraded(""@, e.text()))],
                    None => Seq::empty(),
                },
            ),
            (Query::SelectUsim(attempt, _), Event::Answer(Err(reason))) => (
                self.waiting_for(Query::FindModemAgain(attempt)),
                seq![Effect::WriteStatus(degraded(""@, reason@))],
            ),
            (Query::FindModemAgain(attempt), Event::Modem(Ok(_))) => (
                self.waiting_for(Query::QueryPcscf(attempt)),
                Seq::empty(),
            ),
            (Query::FindModemAgain(attempt), Event::Modem(Err(_))) => self.after_pcscf(
                attempt,
                None,
            ),
            (Query::QueryPcscf(attempt), Event::Answer(Ok(response))) => self.after_pcscf(
                attempt,
                text::find_map(
                    text::lines(response@),
                    |line: Seq<char>| ims_sip::pcscf_of_contrdp(line),
                ),
            ),
            (Query::QueryPcscf(attempt), Event::Answer(Err(_))) => self.after_pcscf(attempt, None),
            (Query::Configure(attempt, pcscf), Event::Configured(Ok(_))) => (
                self.waiting_for(Query::Register(attempt, pcscf)),
                Seq::empty(),
            ),
            (Query::Configure(attempt, _), Event::Configured(Err(e))) => self.give_up(
                seq![Effect::WriteStatus(degraded(attempt.netdev, e.text()))],
                attempt.netdev,
            ),
            (Query::Register(attempt, _), Event::Registration(outcome)) => self.after_registration(
                attempt,
                outcome,
            ),
            (Query::CheckConnected(_), Event::Connection(connection)) => self.after_check(
                connection,
            ),
            (_, _) => (self, Seq::empty()),
        }
    }
}

/// The device of the secondary endpoint: the configured one, or else the one that the file names.
pub open spec fn device_of(configured: Option<Seq<char>>, published: Option<Seq<char>>) -> Option<
    Seq<char>,
> {
    if secondary_qmi::is_set(configured) {
        configured
    } else {
        match published {
            Some(contents) => Some(text::trim(contents)),
            None => None,
        }
    }
}

/// The device of the secondary endpoint.
pub fn secondary_device(configured: Option<String>, published: Option<String>) -> (r: Option<String>)
    ensures
        secondary_qmi::text_view(r) == device_of(
            secondary_qmi::text_view(configured),
            secondary_qmi::text_view(published),
        ),
{
    if let Some(device) = nonblank(configured) {
        return Some(device);
    }
    match published {
        Some(contents) => {
            let chars = chars_of(&contents);
            Some(string_of(trimmed(&chars)))
        },
        None => None,
    }
}

/// What is wrong with the answer to the selection of the USIM.
pub open spec fn aid_defect(response: Seq<char>) -> Option<ImsError> {
    match ims_uim::quoted_part(response) {
        None => Some(ImsError::NoCsimData),
        Some(hex) => match ims_uim::apdu_bytes(hex) {
            None => Some(ImsError::ApduNotHex),
            Some(bytes) => match ims_uim::find_aid(bytes, 0) {
                None => Some(ImsError::MissingAid),
                Some(_) => None,
            },
        },
    }
}

/// What is wrong with the answer to the selection of the USIM.
pub fn check_aid(response: &str) -> (r: Option<ImsError>)
    ensures
        r == aid_defect(response@),
{
    match extract_csim_hex(response) {
        Err(e) => Some(e),
        Ok(hex) => match parse_aid_from_select_response(&hex) {
            Err(e) => Some(e),
            Ok(_) => None,
        },
    }
}

/// Effects to be performed in order.
pub type Effects = Vec<Effect<String, Ipv6Addr, RuntimeStatus>>;

fn push_effect(effects: &mut Effects, effect: Effect<String, Ipv6Addr, RuntimeStatus>)
    ensures
        effects_view(final(effects)@) == effects_view(old(effects)@).push(effect.model()),
{
    effects.push(effect);
    assert(effects_view(effects@) =~= effects_view(old(effects)@).push(effect.model()));
}

fn no_effects() -> (effects: Effects)
    ensures
        effects_view(effects@) == Seq::<EffectModel>::empty(),
{
    let effects: Effects = Vec::new();
    assert(effects_view(effects@) =~= Seq::<EffectModel>::empty());
    effects
}

fn one_effect(effect: Effect<String, Ipv6Addr, RuntimeStatus>) -> (effects: Effects)
    ensures
        effects_view(effects@) == seq![effect.model()],
{
    let mut effects = no_effects();
    push_effect(&mut effects, effect);
    assert(effects_view(effects@) =~= seq![effect.model()]);
    effects
}

fn two_effects(
    first: Effect<String, Ipv6Addr, RuntimeStatus>,
    second: Effect<String, Ipv6Addr, RuntimeStatus>,
) -> (effects: Effects)
    ensures
        effects_view(effects@) == seq![first.model(), second.model()],
{
    let mut effects = one_effect(first);
    push_effect(&mut effects, second);
    assert(effects_view(effects@) =~= seq![first.model(), second.model()]);
    effects
}

/// The effect that writes the snapshot of a runtime that is not registered.
fn write_status(phase: &str, transport: &str, interface: &str, last_error: &str) -> (e: Effect<
    String,
    Ipv6Addr,
    RuntimeStatus,
>)
    ensures
        e.model() == EffectModel::WriteStatus(
            unregistered(phase@, transport@, interface@, last_error@),
        ),
{
    Effect::WriteStatus(unregistered_status(phase, transport, interface, last_error))
}

/// The effect that writes the snapshot of a runtime that something went wrong with.
fn write_degraded(interface: &str, last_error: &str) -> (e: Effect<
    String,
    Ipv6Addr,
    RuntimeStatus,
>)
    ensures
        e.model() == EffectModel::WriteStatus(degraded(interface@, last_error@)),
{
    write_status("degraded", "native_qmi", interface, last_error)
}

impl Supervisor {
    /// A supervisor that has started nothing.
    pub fn new() -> (s: Supervisor)
        ensures
            s@ == SupervisorModel::idle(),
    {
        Supervisor { active: None, listening: false, query: Query::ReadConfig }
    }

    /// What the supervisor waits for.
    pub fn query(&self) -> (q: &Query<String, Ipv6Addr>)
        ensures
            q.model() == self@.query,
    {
        &self.query
    }

    /// Forgets the bearer and the reception of short messages, and gives what takes them down.
    fn take_down(&mut self, effects: &mut Effects)
        ensures
            final(self)@ == SupervisorModel::idle(),
            effects_view(final(effects)@) == effects_view(old(effects)@) + old(self)@.teardown(),
    {
        let ghost before = effects_view(effects@);
        if self.listening {
            push_effect(effects, Effect::AbortListener);
        }
        let mut active: Option<(String, String)> = None;
        std::mem::swap(&mut active, &mut self.active);
        if let Some((device, handle)) = active {
            push_effect(effects, Effect::StopBearer(device, handle));
        }
        self.listening = false;
        self.query = Query::ReadConfig;
        assert(effects_view(effects@) =~= before + old(self)@.teardown());
    }

    fn give_up(&mut self, before: Effects, netdev: &str) -> (effects: Effects)
        ensures
            (final(self)@, effects_view(effects@)) == old(self)@.give_up(
                effects_view(before@),
                netdev@,
            ),
    {
        let mut effects = before;
        self.take_down(&mut effects);
        push_effect(&mut effects, write_degraded(netdev, ""));
        effects
    }

    fn after_config(&mut self, feature_enabled: bool, sms_enabled: bool) -> (effects: Effects)
        ensures
            (final(self)@, effects_view(effects@)) == old(self)@.after_config(
                feature_enabled,
                sms_enabled,
            ),
    {
        let mut effects = no_effects();
        if !feature_enabled {
            self.take_down(&mut effects);
            assert(effects_view(effects@) =~= old(self)@.teardown());
            push_effect(&mut effects, write_status("disabled", "native_qmi", "", ""));
            push_effect(&mut effects, Effect::Sleep(10));
        } else {
            self.query = match &self.active {
                None => Query::ReadDevice(sms_enabled),
                Some((device, _)) => Query::CheckConnected(device.clone()),
            };
        }
        effects
    }

    fn after_device(
        &mut self,
        sms_enabled: bool,
        device: Option<String>,
        netdev: Option<String>,
    ) -> (effects: Effects)
        ensures
            (final(self)@, effects_view(effects@)) == old(self)@.after_device(
                sms_enabled,
                secondary_qmi::text_view(device),
                secondary_qmi::text_view(netdev),
            ),
    {
        match device {
            None => {
                self.query = Query::ReadConfig;
                two_effects(
                    write_status(
                        "waiting_for_secondary_qmi",
                        "native_qmi",
                        "",
                        "secondary QMI device is unavailable",
                    ),
                    Effect::Sleep(5),
                )
            },
            Some(device) => {
                let interface = secondary_netdev(netdev, &device);
                let effects = one_effect(
                    write_status("starting_ims_bearer", "native_qmi", &interface, ""),
                );
                self.query = Query::StartBearer(sms_enabled, device, interface);
                effects
            },
        }
    }

    fn after_start(
        &mut self,
        sms_enabled: bool,
        device: String,
        netdev: String,
        started: Result<(String, QmiBearerSettings), ImsError>,
    ) -> (effects: Effects)
        ensures
            (final(self)@, effects_view(effects@)) == old(self)@.after_start(
                sms_enabled,
                device@,
                netdev@,
                started,
            ),
    {
        match started {
            Ok((handle, settings)) => {
                self.active = Some((device, handle));
                self.query = Query::FindModem(Attempt { sms_enabled, netdev, settings });
                one_effect(write_status("usim_aid_selecting", "native_qmi", "", ""))
            },
            Err(e) => {
                self.query = Query::ReadConfig;
                two_effects(write_degraded("", &e.message()), Effect::Sleep(5))
            },
        }
    }

    fn after_pcscf(&mut self, attempt: Attempt<String>, pcscf: Option<Ipv6Addr>) -> (effects:
        Effects)
        ensures
            (final(self)@, effects_view(effects@)) == old(self)@.after_pcscf(
                attempt.model(),
                ims_sip::address_view(pcscf),
            ),
    {
        match pcscf {
            Some(address) => {
                let effects = two_effects(
                    write_status("pcscf_discovered", "native_qmi", "", ""),
                    write_status("ims_registering", "native_qmi_ipsec", &attempt.netdev, ""),
                );
                self.query = Query::Configure(attempt, address);
                effects
            },
            None => self.give_up(no_effects(), &attempt.netdev),
        }
    }

    fn after_registration(&mut self, attempt: Attempt<String>, outcome: Result<(), ImsError>) -> (
    effects: Effects)
        ensures
            (final(self)@, effects_view(effects@)) == old(self)@.after_registration(
                attempt.model(),
                outcome,
            ),
    {
        match outcome {
            Ok(_) => {
                let mut effects = no_effects();
                if attempt.sms_enabled {
                    if let Some(local) = Ipv6Addr::parse(&attempt.settings.ipv6_address) {
                        effects = one_effect(Effect::SpawnListener(local));
                        self.listening = true;
                    }
                }
                push_effect(
                    &mut effects,
                    Effect::WriteStatus(
                        RuntimeStatus {
                            phase: "registered".to_owned(),
                            registered: true,
                            sms_ready: attempt.sms_enabled,
                            transport: "native_qmi_ipsec".to_owned(),
                            interface: attempt.netdev,
                            last_error: "".to_owned(),
                        },
                    ),
                );
                self.query = Query::ReadConfig;
                effects
            },
            Err(e) => {
                let before = one_effect(
                    write_status("degraded", "native_qmi_ipsec", "", &e.message()),
                );
                self.give_up(before, &attempt.netdev)
            },
        }
    }

    fn after_check(&mut self, connection: Result<bool, ImsError>) -> (effects: Effects)
        ensures
            (final(self)@, effects_view(effects@)) == old(self)@.after_check(connection),
    {
        let connected = match connection {
            Ok(connected) => connected,
            Err(_) => false,
        };
        if connected {
            self.query = Query::ReadConfig;
            one_effect(Effect::Sleep(10))
        } else {
            let mut effects = no_effects();
            self.take_down(&mut effects);
            assert(effects_view(effects@) =~= old(self)@.teardown());
            push_effect(&mut effects, write_degraded("", ""));
            effects
        }
    }

    /// Takes an event in: gives what is to be done now, in order, and waits for something else.
    pub fn step(&mut self, event: Event) -> (effects: Effects)
        ensures
            (final(self)@, effects_view(effects@)) == old(self)@.step(event),
    {
        let mut query: Query<String, Ipv6Addr> = Query::ReadConfig;
        std::mem::swap(&mut query, &mut self.query);
        match (query, event) {
            (Query::ReadConfig, Event::Config { feature_enabled, sms_enabled }) => self.after_config(
                feature_enabled,
                sms_enabled,
            ),
            (
                Query::ReadDevice(sms_enabled),
                Event::Device { configured, published, netdev },
            ) => {
                let device = secondary_device(configured, published);
                self.after_device(sms_enabled, device, netdev)
            },
            (
                Query::StartBearer(sms_enabled, device, netdev),
                Event::Started(started),
            ) => self.after_start(sms_enabled, device, netdev, started),
            (Query::FindModem(attempt), Event::Modem(Ok(_))) => {
                let command = select_command();
                self.query = Query::SelectUsim(attempt, command);
                no_effects()
            },
            (Query::FindModem(attempt), Event::Modem(Err(reason))) => {
                self.query = Query::FindModemAgain(attempt);
                one_effect(write_degraded("", &reason))
            },
            (Query::SelectUsim(attempt, _), Event::Answer(Ok(response))) => {
                self.query = Query::FindModemAgain(attempt);
                match check_aid(&response) {
                    Some(e) => one_effect(write_degraded("", &e.message())),
                    None => no_effects(),
                }
            },
            (Query::SelectUsim(attempt, _), Event::Answer(Err(reason))) => {
                self.query = Query::FindModemAgain(attempt);
                one_effect(write_degraded("", &reason))
            },
            (Query::FindModemAgain(attempt), Event::Modem(Ok(_))) => {
                self.query = Query::QueryPcscf(attempt);
                no_effects()
            },
            (Query::FindModemAgain(attempt), Event::Modem(Err(_))) => self.after_pcscf(
                attempt,
                None,
            ),
            (Query::QueryPcscf(attempt), Event::Answer(Ok(response))) => {
                let pcscf = parse_pcscf_from_cgcontrdp(&response);
                self.after_pcscf(attempt, pcscf)
            },
            (Query::QueryPcscf(attempt), Event::Answer(Err(_))) => self.after_pcscf(attempt, None),
            (Query::Configure(attempt, pcscf), Event::Configured(Ok(_))) => {
                self.query = Query::Register(attempt, pcscf);
                no_effects()
            },
            (Query::Configure(attempt, _), Event::Configured(Err(e))) => {
                let before = one_effect(write_degraded(&attempt.netdev, &e.message()));
                self.give_up(before, &attempt.netdev)
            },
            (Query::Register(attempt, _), Event::Registration(outcome)) => self.after_registration(
                attempt,
                outcome,
            ),
            (Query::CheckConnected(_), Event::Connection(connection)) => self.after_check(
                connection,
            ),
            (query, _) => {
                self.query = query;
                no_effects()
            },
        }
    }
}

/// The command that selects the application of the USIM.
pub fn select_command() -> (s: String)
    ensures
        s@ == ims_uim::csim_command(SELECT_USIM@),
{
    proof {
        lemma_select_command();
    }
    match build_csim_command(SELECT_USIM) {
        Ok(command) => command,
        Err(_) => String::new(),
    }
}

proof fn lemma_select_command()
    ensures
        ims_uim::apdu_bytes(SELECT_USIM@) is Some,
        (ims_uim::apdu_bytes(SELECT_USIM@)->0).len() > 0,
{
    reveal_strlit("00A4040007A0000000871002");
    let s = SELECT_USIM@;
    assert(s.len() == 24);
    assert forall|i: int| 0 <= i < s.len() implies text::is_hex_digit(#[trigger] s[i]) by {}
    text::lemma_compact_hex(s);
    assert(number::is_hex_text(s));
}

// ---------------------------------------------------------------------------------------------
// Laws
// ---------------------------------------------------------------------------------------------
impl SupervisorModel {
    /// The attempt that the supervisor is at, if it is at one.
    pub open spec fn attempt(self) -> Option<Attempt<Seq<char>>> {
        match self.query {
            Query::FindModem(attempt) => Some(attempt),
            Query::SelectUsim(attempt, _) => Some(attempt),
            Query::FindModemAgain(attempt) => Some(attempt),
            Query::QueryPcscf(attempt) => Some(attempt),
            Query::Configure(attempt, _) => Some(attempt),
            Query::Register(attempt, _) => Some(attempt),
            _ => None,
        }
    }

    /// A bearer is only looked for and started where there is none, an attempt and a check are
    /// made on the bearer that is there, and short messages are received on a bearer only.
    pub open spec fn is_consistent(self) -> bool {
        &&& self.query is ReadDevice || self.query is StartBearer ==> self.active is None
        &&& self.attempt() is Some ==> self.active is Some && !self.listening
        &&& match self.query {
            Query::CheckConnected(device) => self.active is Some && (self.active->0).0 == device,
            _ => true,
        }
        &&& self.listening ==> self.active is Some
    }
}

/// The supervisor stays consistent, and it begins so. In particular it never starts a bearer
/// while it has one.
pub proof fn law_stays_consistent(s: SupervisorModel, event: Event)
    requires
        s.is_consistent(),
    ensures
        s.step(event).0.is_consistent(),
        SupervisorModel::idle().is_consistent(),
{
}

/// Only the bearer that the supervisor has started is ever stopped, so the ordinary data bearer
/// is left alone.
pub proof fn law_only_own_bearer_stopped(s: SupervisorModel, event: Event, i: int)
    requires
        0 <= i < s.step(event).1.len(),
        s.step(event).1[i] is StopBearer,
    ensures
        s.active is Some,
        s.step(event).1[i] == EffectModel::StopBearer((s.active->0).0, (s.active->0).1),
        s.step(event).0.active is None,
{
}

/// A bearer is given up only by stopping it, and the reception of short messages only by aborting
/// it.
pub proof fn law_nothing_left_running(s: SupervisorModel, event: Event)
    ensures
        s.active is Some && s.step(event).0.active != s.active && !(s.query is StartBearer)
            ==> s.step(event).1.contains(
            EffectModel::StopBearer((s.active->0).0, (s.active->0).1),
        ),
        s.listening && !s.step(event).0.listening ==> s.step(event).1.contains(
            EffectModel::AbortListener,
        ),
{
    let effects = s.step(event).1;
    let t = s.teardown();
    if s.active is Some {
        let n = t.len() - 1;
        assert(t[n] == EffectModel::StopBearer((s.active->0).0, (s.active->0).1));
        lemma_teardown_performed(s, event, n);
    }
    if s.listening {
        assert(t[0] == EffectModel::AbortListener);
        lemma_teardown_performed(s, event, 0);
    }
}

/// Where the supervisor becomes idle, what it has is taken down.
proof fn lemma_teardown_performed(s: SupervisorModel, event: Event, n: int)
    requires
        0 <= n < s.teardown().len(),
    ensures
        (s.active is Some && s.step(event).0.active != s.active && !(s.query is StartBearer)) || (
        s.listening && !s.step(event).0.listening) ==> s.step(event).1.contains(s.teardown()[n]),
{
    let effects = s.step(event).1;
    let t = s.teardown();
    if (s.active is Some && s.step(event).0.active != s.active && !(s.query is StartBearer)) || (
    s.listening && !s.step(event).0.listening) {
        match s.query {
            Query::ReadConfig => {
                assert(effects[n] == t[n]);
            },
            Query::CheckConnected(_) => {
                assert(effects[n] == t[n]);
            },
            Query::Configure(_, _) => {
                assert(effects[n + 1] == t[n]);
            },
            Query::Register(_, _) => {
                assert(effects[n + 1] == t[n]);
            },
            _ => {
                assert(effects[n] == t[n]);
            },
        }
    }
}

/// While the feature is disabled there is no bearer and no reception of short messages: what is
/// there is taken down.
pub proof fn law_disabled(s: SupervisorModel, sms_enabled: bool)
    requires
        s.query is ReadConfig,
    ensures
        ({
            let (next, effects) = s.step(Event::Config { feature_enabled: false, sms_enabled });
            &&& next == SupervisorModel::idle()
            &&& s.teardown().is_prefix_of(effects)
            &&& effects.len() == s.teardown().len() + 2
        }),
{
    let effects = s.step(Event::Config { feature_enabled: false, sms_enabled }).1;
    assert(s.teardown() =~= effects.take(s.teardown().len() as int));
}

/// The snapshot says that the runtime is registered, or that short messages can come, only when
/// the registration has succeeded. It then gives the phase, the transport and the interface, and
/// says that short messages can come exactly if they are enabled.
pub proof fn law_registered_reported(s: SupervisorModel, event: Event, i: int)
    requires
        0 <= i < s.step(event).1.len(),
        s.step(event).1[i] is WriteStatus,
        ({
            let status = s.step(event).1[i]->WriteStatus_0;
            status.registered || status.sms_ready
        }),
    ensures
        s.query is Register,
        event is Registration,
        event->Registration_0 is Ok,
        s.step(event).1[i]->WriteStatus_0 == (StatusModel {
            phase: "registered"@,
            registered: true,
            sms_ready: (s.attempt()->0).sms_enabled,
            transport: "native_qmi_ipsec"@,
            interface: (s.attempt()->0).netdev,
            last_error: ""@,
        }),
        s.step(event).0.active == s.active,
{
}

/// Short messages are received only after a registration has succeeded while they are enabled,
/// at the address of the bearer.
pub proof fn law_listener_after_registration(s: SupervisorModel, event: Event, i: int)
    requires
        0 <= i < s.step(event).1.len(),
        s.step(event).1[i] is SpawnListener,
    ensures
        s.query is Register,
        event is Registration,
        event->Registration_0 is Ok,
        (s.attempt()->0).sms_enabled,
        ipv6::parse_ipv6((s.attempt()->0).settings.ipv6_address@) == Some(
            s.step(event).1[i]->SpawnListener_0,
        ),
{
}

/// A registration that fails takes down the secondary bearer and nothing else, and the supervisor
/// tries again.
pub proof fn law_failed_registration(s: SupervisorModel, e: ImsError)
    requires
        s.is_consistent(),
        s.query is Register,
    ensures
        ({
            let (next, effects) = s.step(Event::Registration(Err(e)));
            &&& next == SupervisorModel::idle()
            &&& effects.len() == 3
            &&& effects[0] is WriteStatus
            &&& effects[1] == EffectModel::StopBearer((s.active->0).0, (s.active->0).1)
            &&& effects[2] is WriteStatus
        }),
{
    let effects = s.step(Event::Registration(Err(e))).1;
    assert(s.teardown() =~= seq![
        EffectModel::StopBearer((s.active->0).0, (s.active->0).1),
    ]);
}

} // verus!
