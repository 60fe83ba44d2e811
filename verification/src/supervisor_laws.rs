//! Laws of the supervisor: the course of an attempt, what each failure leads to, what the snapshots
//! say and how long the supervisor waits.
use vstd::prelude::*;
use crate::error::ImsError;
use crate::ims_sip;
use crate::ims_uim;
use crate::ipv6;
use crate::secondary_qmi;
use crate::supervisor;
use crate::supervisor::{Attempt, Effect, EffectModel, Event, Query, StatusModel, SupervisorModel};
use crate::text;
use crate::text_laws;
use crate::volte;
use crate::volte::QmiBearerSettings;

verus! {

// ---------------------------------------------------------------------------------------------
// The device
// ---------------------------------------------------------------------------------------------
/// The device is the configured one as it is written, unless the setting is blank; otherwise it is
/// the one in the file, without the white space around it.
pub proof fn law_device_chosen(
    configured: Option<Seq<char>>,
    published: Option<Seq<char>>,
    lead: Seq<char>,
    device: Seq<char>,
    trail: Seq<char>,
)
    requires
        text_laws::is_white(lead),
        text_laws::is_bare(device),
        text_laws::is_white(trail),
    ensures
        configured is Some && text::trim(configured->0).len() > 0 ==> supervisor::device_of(
            configured,
            published,
        ) == configured,
        configured is None || text::trim(configured->0).len() == 0 ==> ({
            &&& supervisor::device_of(configured, None) is None
            &&& supervisor::device_of(configured, Some(lead + device + trail)) == Some(device)
        }),
{
    text_laws::law_trim(lead, device, trail);
}

/// The answer to the selection of the USIM is in order exactly if it holds bytes in which an
/// application is found; each defect has its error.
pub proof fn law_selection_checked(response: Seq<char>)
    ensures
        ({
            let hex = ims_uim::quoted_part(response);
            let bytes = ims_uim::apdu_bytes(hex->0);
            let defect = supervisor::aid_defect(response);
            &&& hex is None <==> defect == Some(ImsError::NoCsimData)
            &&& hex is Some && bytes is None <==> defect == Some(ImsError::ApduNotHex)
            &&& hex is Some && bytes is Some && ims_uim::find_aid(bytes->0, 0) is None <==> defect
                == Some(ImsError::MissingAid)
            &&& hex is Some && bytes is Some && ims_uim::find_aid(bytes->0, 0) is Some <==> defect
                is None
        }),
{
}

// ---------------------------------------------------------------------------------------------
// The course of an attempt
// ---------------------------------------------------------------------------------------------
/// What the supervisor waits for after the events, and everything that it has done.
pub open spec fn course(s: SupervisorModel, events: Seq<Event>) -> (
    SupervisorModel,
    Seq<EffectModel>,
)
    decreases events.len(),
{
    if events.len() == 0 {
        (s, Seq::empty())
    } else {
        let (before, done) = course(s, events.drop_last());
        let (after, more) = before.step(events.last());
        (after, done + more)
    }
}

proof fn lemma_course(s: SupervisorModel, events: Seq<Event>, event: Event)
    ensures
        ({
            let (before, done) = course(s, events);
            let (after, more) = before.step(event);
            course(s, events.push(event)) == (after, done + more)
        }),
{
    assert(events.push(event).drop_last() =~= events);
}

/// A snapshot that is not registered.
pub open spec fn shown(
    phase: Seq<char>,
    transport: Seq<char>,
    interface: Seq<char>,
    last_error: Seq<char>,
) -> EffectModel {
    Effect::WriteStatus(
        StatusModel {
            phase,
            registered: false,
            sms_ready: false,
            transport,
            interface,
            last_error,
        },
    )
}

/// Everything goes well: from nothing the supervisor comes to a registered bearer. It has shown
/// each phase in its order, receives short messages at the address of the bearer if they are
/// enabled, and reads the configuration again.
pub proof fn law_course_of_success(
    sms_enabled: bool,
    device: String,
    netdev: String,
    handle: String,
    settings: QmiBearerSettings,
    selected: String,
    answer: String,
    local: Seq<u16>,
    pcscf: Seq<u16>,
)
    requires
        text::trim(device@).len() > 0,
        text::trim(netdev@).len() > 0,
        supervisor::aid_defect(selected@) is None,
        text::find_map(
            text::lines(answer@),
            |line: Seq<char>| ims_sip::pcscf_of_contrdp(line),
        ) == Some(pcscf),
        ipv6::parse_ipv6(settings.ipv6_address@) == Some(local),
    ensures
        ({
            let events = seq![
                Event::Config { feature_enabled: true, sms_enabled },
                Event::Device {
                    configured: Some(device),
                    published: None,
                    netdev: Some(netdev),
                },
                Event::Started(Ok((handle, settings))),
                Event::Modem(Ok(())),
                Event::Answer(Ok(selected)),
                Event::Modem(Ok(())),
                Event::Answer(Ok(answer)),
                Event::Configured(Ok(())),
                Event::Registration(Ok(())),
            ];
            let (s, done) = course(
                SupervisorModel { active: None, listening: false, query: Query::ReadConfig },
                events,
            );
            let phases = seq![
                shown("starting_ims_bearer"@, "native_qmi"@, netdev@, ""@),
                shown("usim_aid_selecting"@, "native_qmi"@, ""@, ""@),
                shown("pcscf_discovered"@, "native_qmi"@, ""@, ""@),
                shown("ims_registering"@, "native_qmi_ipsec"@, netdev@, ""@),
            ];
            let last = EffectModel::WriteStatus(
                StatusModel {
                    phase: "registered"@,
                    registered: true,
                    sms_ready: sms_enabled,
                    transport: "native_qmi_ipsec"@,
                    interface: netdev@,
                    last_error: ""@,
                },
            );
            &&& s.active == Some((device@, handle@))
            &&& s.listening == sms_enabled
            &&& s.query == Query::<Seq<char>, Seq<u16>>::ReadConfig
            &&& sms_enabled ==> done == phases.push(EffectModel::SpawnListener(local)).push(last)
            &&& !sms_enabled ==> done == phases.push(last)
        }),
{
    let s0 = SupervisorModel { active: None, listening: false, query: Query::ReadConfig };
    let n = Seq::<Event>::empty();
    let a = Event::Config { feature_enabled: true, sms_enabled };
    let b = Event::Device { configured: Some(device), published: None, netdev: Some(netdev) };
    let c = Event::Started(Ok((handle, settings)));
    let d = Event::Modem(Ok(()));
    let e = Event::Answer(Ok(selected));
    let f = Event::Modem(Ok(()));
    let g = Event::Answer(Ok(answer));
    let h = Event::Configured(Ok(()));
    let i = Event::Registration(Ok(()));
    lemma_course(s0, n, a);
    lemma_course(s0, n.push(a), b);
    lemma_course(s0, n.push(a).push(b), c);
    lemma_course(s0, n.push(a).push(b).push(c), d);
    lemma_course(s0, n.push(a).push(b).push(c).push(d), e);
    lemma_course(s0, n.push(a).push(b).push(c).push(d).push(e), f);
    lemma_course(s0, n.push(a).push(b).push(c).push(d).push(e).push(f), g);
    lemma_course(s0, n.push(a).push(b).push(c).push(d).push(e).push(f).push(g), h);
    lemma_course(s0, n.push(a).push(b).push(c).push(d).push(e).push(f).push(g).push(h), i);
    let all = n.push(a).push(b).push(c).push(d).push(e).push(f).push(g).push(h).push(i);
    assert(all =~= seq![a, b, c, d, e, f, g, h, i]);
    let (s, done) = course(s0, all);
    assert(secondary_qmi::is_set(Some(device@)));
    assert(supervisor::device_of(Some(device@), None) == Some(device@));
    assert(volte::netdev_of(Some(netdev@), device@) == netdev@);
    let phases = seq![
        shown("starting_ims_bearer"@, "native_qmi"@, netdev@, ""@),
        shown("usim_aid_selecting"@, "native_qmi"@, ""@, ""@),
        shown("pcscf_discovered"@, "native_qmi"@, ""@, ""@),
        shown("ims_registering"@, "native_qmi_ipsec"@, netdev@, ""@),
    ];
    let last = EffectModel::WriteStatus(
        StatusModel {
            phase: "registered"@,
            registered: true,
            sms_ready: sms_enabled,
            transport: "native_qmi_ipsec"@,
            interface: netdev@,
            last_error: ""@,
        },
    );
    if sms_enabled {
        assert(done =~= phases.push(EffectModel::SpawnListener(local)).push(last));
    } else {
        assert(done =~= phases.push(last));
    }
}

/// The USIM is asked to select its application: the command holds the class, the instruction and
/// the identifier of the application.
pub proof fn law_selection_asked_for(s: SupervisorModel, attempt: Attempt<Seq<char>>)
    requires
        s.query == Query::<Seq<char>, Seq<u16>>::FindModem(attempt),
    ensures
        s.step(Event::Modem(Ok(()))).0 == (SupervisorModel {
            active: s.active,
            listening: s.listening,
            query: Query::SelectUsim(
                attempt,
                ims_uim::csim_command("00A40400"@ + "07"@ + "A0000000871002"@),
            ),
        }),
        s.step(Event::Modem(Ok(()))).1.len() == 0,
{
    reveal_strlit("00A40400");
    reveal_strlit("07");
    reveal_strlit("A0000000871002");
    reveal_strlit("00A4040007A0000000871002");
    assert("00A40400"@ + "07"@ + "A0000000871002"@ =~= "00A4040007A0000000871002"@);
}

/// A selection that fails is shown, and the attempt goes on as if it had succeeded.
pub proof fn law_selection_is_optional(
    s: SupervisorModel,
    attempt: Attempt<Seq<char>>,
    command: Seq<char>,
    event: Event,
)
    requires
        s.query == Query::<Seq<char>, Seq<u16>>::SelectUsim(attempt, command),
        event is Answer,
    ensures
        ({
            let (next, effects) = s.step(event);
            let defect = supervisor::aid_defect(event->Answer_0->Ok_0@);
            &&& next.active == s.active
            &&& next.listening == s.listening
            &&& next.query == Query::<Seq<char>, Seq<u16>>::FindModemAgain(attempt)
            &&& event->Answer_0 is Err ==> effects == seq![
                shown("degraded"@, "native_qmi"@, ""@, event->Answer_0->Err_0@),
            ]
            &&& event->Answer_0 is Ok && defect is Some ==> effects == seq![
                shown("degraded"@, "native_qmi"@, ""@, defect->0.text()),
            ]
            &&& event->Answer_0 is Ok && defect is None ==> effects.len() == 0
        }),
{
}

/// Without a modem the selection is left out, and this is shown.
pub proof fn law_selection_left_out(
    s: SupervisorModel,
    attempt: Attempt<Seq<char>>,
    reason: String,
)
    requires
        s.query == Query::<Seq<char>, Seq<u16>>::FindModem(attempt),
    ensures
        ({
            let (next, effects) = s.step(Event::Modem(Err(reason)));
            &&& next.active == s.active
            &&& next.listening == s.listening
            &&& next.query == Query::<Seq<char>, Seq<u16>>::FindModemAgain(attempt)
            &&& effects == seq![shown("degraded"@, "native_qmi"@, ""@, reason@)]
        }),
{
}

// ---------------------------------------------------------------------------------------------
// Failures
// ---------------------------------------------------------------------------------------------
/// An attempt that ends without a P-CSCF, an interface or a registration stops the bearer of the
/// attempt, shows what went wrong and begins anew.
pub proof fn law_attempt_fails(
    s: SupervisorModel,
    attempt: Attempt<Seq<char>>,
    pcscf: Seq<u16>,
    device: Seq<char>,
    handle: Seq<char>,
    reason: String,
    e: ImsError,
)
    requires
        s.active == Some((device, handle)),
        !s.listening,
    ensures
        ({
            let begun = SupervisorModel { active: None, listening: false, query: Query::ReadConfig };
            let end = seq![
                EffectModel::StopBearer(device, handle),
                shown("degraded"@, "native_qmi"@, attempt.netdev, ""@),
            ];
            &&& s.query == Query::<Seq<char>, Seq<u16>>::FindModemAgain(attempt) ==> s.step(
                Event::Modem(Err(reason)),
            ) == (begun, end)
            &&& s.query == Query::<Seq<char>, Seq<u16>>::QueryPcscf(attempt) ==> s.step(
                Event::Answer(Err(reason)),
            ) == (begun, end)
            &&& s.query == Query::<Seq<char>, Seq<u16>>::Configure(attempt, pcscf) ==> s.step(
                Event::Configured(Err(e)),
            ) == (
                begun,
                seq![shown("degraded"@, "native_qmi"@, attempt.netdev, e.text())] + end,
            )
            &&& s.query == Query::<Seq<char>, Seq<u16>>::Register(attempt, pcscf) ==> s.step(
                Event::Registration(Err(e)),
            ) == (begun, seq![shown("degraded"@, "native_qmi_ipsec"@, ""@, e.text())] + end)
        }),
{
    let end = seq![
        EffectModel::StopBearer(device, handle),
        shown("degraded"@, "native_qmi"@, attempt.netdev, ""@),
    ];
    let begun = SupervisorModel { active: None, listening: false, query: Query::ReadConfig };
    let none = Seq::<EffectModel>::empty();
    let x = seq![shown("degraded"@, "native_qmi"@, attempt.netdev, e.text())];
    let y = seq![shown("degraded"@, "native_qmi_ipsec"@, ""@, e.text())];
    assert(s.teardown() =~= seq![EffectModel::StopBearer(device, handle)]);
    assert(s.give_up(none, attempt.netdev).1 =~= end);
    assert(s.give_up(x, attempt.netdev).1 =~= x + end);
    assert(s.give_up(y, attempt.netdev).1 =~= y + end);
}

/// An answer of the modem without a P-CSCF ends the attempt as well.
pub proof fn law_no_pcscf(
    s: SupervisorModel,
    attempt: Attempt<Seq<char>>,
    answer: String,
)
    requires
        s.query == Query::<Seq<char>, Seq<u16>>::QueryPcscf(attempt),
        forall|i: int|
            0 <= i < text::lines(answer@).len() ==> ims_sip::pcscf_of_contrdp(
                #[trigger] text::lines(answer@)[i],
            ) is None,
    ensures
        s.step(Event::Answer(Ok(answer))).0.active is None,
        s.step(Event::Answer(Ok(answer))).1.last() == shown(
            "degraded"@,
            "native_qmi"@,
            attempt.netdev,
            ""@,
        ),
        s.active is Some ==> s.step(Event::Answer(Ok(answer))).1.contains(
            EffectModel::StopBearer((s.active->0).0, (s.active->0).1),
        ),
{
    let f = |line: Seq<char>| ims_sip::pcscf_of_contrdp(line);
    let lines = text::lines(answer@);
    assert forall|i: int| 0 <= i < lines.len() implies f(#[trigger] lines[i]) is None by {}
    text_laws::law_find_map(lines, f, lines.len() as int);
    supervisor::law_nothing_left_running(s, Event::Answer(Ok(answer)));
}

/// Without a device, and with a bearer that does not start, this is shown and the supervisor waits
/// five seconds before it reads the configuration again.
pub proof fn law_no_bearer(
    s: SupervisorModel,
    sms_enabled: bool,
    device: Seq<char>,
    interface: Seq<char>,
    netdev: Option<String>,
    e: ImsError,
)
    ensures
        s.query == Query::<Seq<char>, Seq<u16>>::ReadDevice(sms_enabled) ==> s.step(
            Event::Device { configured: None, published: None, netdev },
        ) == (
            SupervisorModel { active: s.active, listening: s.listening, query: Query::ReadConfig },
            seq![
                shown(
                    "waiting_for_secondary_qmi"@,
                    "native_qmi"@,
                    ""@,
                    "secondary QMI device is unavailable"@,
                ),
                EffectModel::Sleep(5),
            ],
        ),
        s.query == Query::<Seq<char>, Seq<u16>>::StartBearer(sms_enabled, device, interface)
            ==> s.step(Event::Started(Err(e))) == (
            SupervisorModel { active: s.active, listening: s.listening, query: Query::ReadConfig },
            seq![shown("degraded"@, "native_qmi"@, ""@, e.text()), EffectModel::Sleep(5)],
        ),
{
}

/// A disabled feature takes everything down, in this order: the reception of short messages, then
/// the bearer. This is shown, and the supervisor waits ten seconds.
pub proof fn law_disabled_feature(
    s: SupervisorModel,
    device: Seq<char>,
    handle: Seq<char>,
    sms_enabled: bool,
)
    requires
        s.query is ReadConfig,
    ensures
        ({
            let (next, effects) = s.step(Event::Config { feature_enabled: false, sms_enabled });
            let end = seq![shown("disabled"@, "native_qmi"@, ""@, ""@), EffectModel::Sleep(10)];
            &&& next.active is None
            &&& !next.listening
            &&& next.query == Query::<Seq<char>, Seq<u16>>::ReadConfig
            &&& s.active is None && !s.listening ==> effects == end
            &&& s.active == Some((device, handle)) && !s.listening ==> effects == seq![
                EffectModel::StopBearer(device, handle),
            ] + end
            &&& s.active == Some((device, handle)) && s.listening ==> effects == seq![
                EffectModel::AbortListener,
                EffectModel::StopBearer(device, handle),
            ] + end
        }),
{
    let effects = s.step(Event::Config { feature_enabled: false, sms_enabled }).1;
    let end = seq![shown("disabled"@, "native_qmi"@, ""@, ""@), EffectModel::Sleep(10)];
    if s.active is None && !s.listening {
        assert(effects =~= end);
    }
    if s.active == Some((device, handle)) && !s.listening {
        assert(effects =~= seq![EffectModel::StopBearer(device, handle)] + end);
    }
    if s.active == Some((device, handle)) && s.listening {
        assert(effects =~= seq![
            EffectModel::AbortListener,
            EffectModel::StopBearer(device, handle),
        ] + end);
    }
}

/// While a bearer is there, it is looked at every ten seconds. A bearer that is not connected, or
/// whose status cannot be read, is taken down.
pub proof fn law_bearer_watched(
    s: SupervisorModel,
    device: Seq<char>,
    handle: Seq<char>,
    sms_enabled: bool,
    e: ImsError,
)
    requires
        s.active == Some((device, handle)),
    ensures
        s.query is ReadConfig ==> s.step(Event::Config { feature_enabled: true, sms_enabled }) == (
            SupervisorModel {
                active: s.active,
                listening: s.listening,
                query: Query::CheckConnected(device),
            },
            Seq::<EffectModel>::empty(),
        ),
        s.query is CheckConnected ==> s.step(Event::Connection(Ok(true))) == (
            SupervisorModel { active: s.active, listening: s.listening, query: Query::ReadConfig },
            seq![EffectModel::Sleep(10)],
        ),
        s.query is CheckConnected ==> s.step(Event::Connection(Ok(false))) == s.step(
            Event::Connection(Err(e)),
        ),
        s.query is CheckConnected ==> ({
            let (next, effects) = s.step(Event::Connection(Ok(false)));
            let end = seq![
                EffectModel::StopBearer(device, handle),
                shown("degraded"@, "native_qmi"@, ""@, ""@),
            ];
            &&& next.active is None
            &&& !next.listening
            &&& next.query == Query::<Seq<char>, Seq<u16>>::ReadConfig
            &&& effects == if s.listening {
                seq![EffectModel::AbortListener] + end
            } else {
                end
            }
        }),
{
    let end = seq![
        EffectModel::StopBearer(device, handle),
        shown("degraded"@, "native_qmi"@, ""@, ""@),
    ];
    if s.query is CheckConnected {
        let effects = s.step(Event::Connection(Ok(false))).1;
        if s.listening {
            assert(effects =~= seq![EffectModel::AbortListener] + end);
        } else {
            assert(effects =~= end);
        }
    }
}

/// A registered bearer whose address cannot be read has no short messages received, and is
/// registered all the same.
pub proof fn law_registered_without_address(
    s: SupervisorModel,
    attempt: Attempt<Seq<char>>,
    pcscf: Seq<u16>,
)
    requires
        s.query == Query::<Seq<char>, Seq<u16>>::Register(attempt, pcscf),
        ipv6::parse_ipv6(attempt.settings.ipv6_address@) is None,
    ensures
        ({
            let (next, effects) = s.step(Event::Registration(Ok(())));
            &&& next.active == s.active
            &&& next.listening == s.listening
            &&& effects.len() == 1
            &&& effects[0] is WriteStatus
            &&& effects[0]->WriteStatus_0.registered
            &&& effects[0]->WriteStatus_0.sms_ready == attempt.sms_enabled
        }),
{
}

/// The access point, the query for the P-CSCF and the file of the snapshot.
pub proof fn law_supervisor_names()
    ensures
        supervisor::IMS_APN@ == "ims"@,
        supervisor::PCSCF_QUERY@ == "AT+CGCONTRDP"@,
        volte::RUNTIME_STATUS_PATH@ == "/run/simadmin/volte-status.json"@,
{
}

/// The event can be what came of the query.
pub open spec fn belongs(query: Query<Seq<char>, Seq<u16>>, event: Event) -> bool {
    match query {
        Query::ReadConfig => event is Config,
        Query::ReadDevice(_) => event is Device,
        Query::StartBearer(_, _, _) => event is Started,
        Query::FindModem(_) => event is Modem,
        Query::SelectUsim(_, _) => event is Answer,
        Query::FindModemAgain(_) => event is Modem,
        Query::QueryPcscf(_) => event is Answer,
        Query::Configure(_, _) => event is Configured,
        Query::Register(_, _) => event is Registration,
        Query::CheckConnected(_) => event is Connection,
    }
}

/// An event that the supervisor does not wait for is ignored: nothing is done and nothing changes.
pub proof fn law_other_events_ignored(s: SupervisorModel, event: Event)
    requires
        !belongs(s.query, event),
    ensures
        s.step(event).0 == s,
        s.step(event).1.len() == 0,
{
}

} // verus!
