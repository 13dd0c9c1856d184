//! The background worker: rounds of reading the settings, choosing the proxy, probing,
//! publishing what was found, and waiting.
//!
//! The worker asks for one thing at a time and goes on by what came of it. Every round reads the
//! settings anew, so that a change takes effect with the next round.
#[allow(unused_imports)]
use crate::agent::agent_outcome;
use crate::config::{effectiveRefreshSecs, Config};
#[allow(unused_imports)]
use crate::config::{effective_secs, Settings, MIN_REFRESH_SECS};
use crate::probe::{probeWithFallback, FallbackRun, FallbackStep, IpInfo, ProbeReply};
#[allow(unused_imports)]
use crate::probe::{
    all_fail, all_failed, all_services_may_fail, candidates, candidates_are_distinct, failures,
    fallback_step, first_address_wins, first_request, lemma_probe_after_push, outcome_of,
    probe_after, reply_outcome, shown, AddressInfo, ReplyView, RunView, StepView,
};
use crate::proxy::{read_system_proxy, resolve_effective_proxy, EffectiveProxy};
#[allow(unused_imports)]
use crate::proxy::{proxy_choice, system_proxy_url, ProxyChoice};
use crate::text::{chars_of, concat, trim};
#[allow(unused_imports)]
use crate::text::{is_blank, lemma_trimmed, text_of, trimmed};
use vstd::prelude::*;

verus! {

/// How long the answer of one service is waited for, in seconds.
pub const PROBE_TIMEOUT_SECS: u64 = 5;

/// How requests name the program that sends them.
pub const USER_AGENT: &'static str = "ipDetect/0.1";

/// Where the worker stands in its round. `refresh_secs` is the interval in force.
#[derive(Debug)]
pub enum Worker {
    LoadConfig,
    ReadSystemProxy { config: Config },
    Connect { config: Config, proxy: EffectiveProxy },
    Probe { refresh_secs: u64, agent: ureq::Agent, run: FallbackRun },
    Publish { refresh_secs: u64, text: String },
    Sleep { refresh_secs: u64 },
}

/// Where the worker stands, as the contracts speak of it.
pub enum WorkerView {
    LoadConfig,
    ReadSystemProxy { settings: Settings },
    Connect { settings: Settings, choice: ProxyChoice },
    Probe { refresh_secs: u64, agent: ureq::Agent, run: RunView },
    Publish { refresh_secs: u64, text: Seq<char> },
    Sleep { refresh_secs: u64 },
}

impl View for Worker {
    type V = WorkerView;

    open spec fn view(&self) -> WorkerView {
        match self {
            Worker::LoadConfig => WorkerView::LoadConfig,
            Worker::ReadSystemProxy { config } => WorkerView::ReadSystemProxy {
                settings: config@,
            },
            Worker::Connect { config, proxy } => WorkerView::Connect {
                settings: config@,
                choice: proxy@,
            },
            Worker::Probe { refresh_secs, agent, run } => WorkerView::Probe {
                refresh_secs: *refresh_secs,
                agent: *agent,
                run: run@,
            },
            Worker::Publish { refresh_secs, text } => WorkerView::Publish {
                refresh_secs: *refresh_secs,
                text: text@,
            },
            Worker::Sleep { refresh_secs } => WorkerView::Sleep { refresh_secs: *refresh_secs },
        }
    }
}

/// What the worker asks for.
#[derive(Debug)]
pub enum WorkerAction<'a> {
    /// Read the settings.
    LoadConfig,
    /// Read the proxy settings of the system.
    ReadSystemProxy,
    /// Build the agent that sends the requests.
    Connect { proxy: &'a EffectiveProxy, timeout_secs: u64 },
    /// Ask this service with this agent.
    Request { agent: &'a ureq::Agent, url: &'a str, user_agent: &'a str },
    /// Publish this text.
    Publish(&'a str),
    /// Wait for so many seconds.
    Sleep(u64),
}

/// What the worker asks for, as the contracts speak of it.
pub enum ActionView {
    LoadConfig,
    ReadSystemProxy,
    Connect { choice: ProxyChoice, timeout_secs: u64 },
    Request { agent: ureq::Agent, url: Seq<char>, user_agent: Seq<char> },
    Publish(Seq<char>),
    Sleep(u64),
}

impl<'a> View for WorkerAction<'a> {
    type V = ActionView;

    open spec fn view(&self) -> ActionView {
        match self {
            WorkerAction::LoadConfig => ActionView::LoadConfig,
            WorkerAction::ReadSystemProxy => ActionView::ReadSystemProxy,
            WorkerAction::Connect { proxy, timeout_secs } => ActionView::Connect {
                choice: proxy@,
                timeout_secs: *timeout_secs,
            },
            WorkerAction::Request { agent, url, user_agent } => ActionView::Request {
                agent: **agent,
                url: url@,
                user_agent: user_agent@,
            },
            WorkerAction::Publish(text) => ActionView::Publish(text@),
            WorkerAction::Sleep(secs) => ActionView::Sleep(*secs),
        }
    }
}

/// What came of it.
#[derive(Debug)]
pub enum WorkerEvent {
    /// The settings.
    Config(Config),
    /// The proxy settings of the system, as far as they are there.
    SystemProxy { enable: Option<u32>, server: Option<String> },
    /// The agent, or why it cannot be built.
    Connected(Result<ureq::Agent, String>),
    /// What came of the request.
    Reply(ProbeReply),
    /// It is done.
    Returned,
}

/// What came of it, as the contracts speak of it.
pub enum EventView {
    Config(Settings),
    SystemProxy { enable: Option<u32>, server: Option<Seq<char>> },
    Connected(Result<ureq::Agent, Seq<char>>),
    Reply(ReplyView),
    Returned,
}

impl View for WorkerEvent {
    type V = EventView;

    open spec fn view(&self) -> EventView {
        match self {
            WorkerEvent::Config(config) => EventView::Config(config@),
            WorkerEvent::SystemProxy { enable, server } => EventView::SystemProxy {
                enable: *enable,
                server: text_of(*server),
            },
            WorkerEvent::Connected(result) => EventView::Connected(agent_outcome(*result)),
            WorkerEvent::Reply(reply) => EventView::Reply(reply@),
            WorkerEvent::Returned => EventView::Returned,
        }
    }
}

/// The text that is published after a probe.
pub open spec fn published(result: Result<AddressInfo, Seq<char>>) -> Seq<char> {
    match result {
        Ok(info) => shown(info),
        Err(error) => "探测失败: "@ + error,
    }
}

/// Where the worker stands once the probe is there.
pub open spec fn probing(refresh_secs: u64, agent: ureq::Agent, step: StepView) -> WorkerView {
    match step {
        StepView::Request(run) => WorkerView::Probe { refresh_secs, agent, run },
        StepView::Finished(result) => WorkerView::Publish {
            refresh_secs,
            text: published(result),
        },
    }
}

/// How a worker goes on. An event that does not belong to what it asked for changes nothing.
pub open spec fn worker_step(worker: WorkerView, event: EventView) -> WorkerView {
    match (worker, event) {
        (WorkerView::LoadConfig, EventView::Config(settings)) => if is_blank(
            settings.proxy_override,
        ) {
            WorkerView::ReadSystemProxy { settings }
        } else {
            WorkerView::Connect {
                settings,
                choice: proxy_choice(Some(settings.proxy_override), None),
            }
        },
        (
            WorkerView::ReadSystemProxy { settings },
            EventView::SystemProxy { enable, server },
        ) => WorkerView::Connect {
            settings,
            choice: proxy_choice(None, system_proxy_url(enable, server)),
        },
        (WorkerView::Connect { settings, choice }, EventView::Connected(result)) => {
            let refresh_secs = effective_secs(settings.refresh_secs);
            match result {
                Ok(agent) => WorkerView::Probe {
                    refresh_secs,
                    agent,
                    run: first_request(candidates(Some(settings.probe_url))),
                },
                Err(error) => WorkerView::Publish { refresh_secs, text: published(Err(error)) },
            }
        },
        (WorkerView::Probe { refresh_secs, agent, run }, EventView::Reply(reply)) => probing(
            refresh_secs,
            agent,
            fallback_step(run, reply),
        ),
        (WorkerView::Publish { refresh_secs, .. }, EventView::Returned) => WorkerView::Sleep {
            refresh_secs,
        },
        (WorkerView::Sleep { .. }, EventView::Returned) => WorkerView::LoadConfig,
        _ => worker,
    }
}

/// What a worker asks for.
pub open spec fn asked(worker: WorkerView) -> ActionView {
    match worker {
        WorkerView::LoadConfig => ActionView::LoadConfig,
        WorkerView::ReadSystemProxy { .. } => ActionView::ReadSystemProxy,
        WorkerView::Connect { choice, .. } => ActionView::Connect {
            choice,
            timeout_secs: PROBE_TIMEOUT_SECS,
        },
        WorkerView::Probe { agent, run, .. } => ActionView::Request {
            agent,
            url: run.url,
            user_agent: "ipDetect/0.1"@,
        },
        WorkerView::Publish { text, .. } => ActionView::Publish(text),
        WorkerView::Sleep { refresh_secs } => ActionView::Sleep(refresh_secs),
    }
}

/// The text to publish after a probe: the address, or why there is none.
pub fn published_text(result: &Result<IpInfo, String>) -> (text: String)
    ensures
        text@ == published(outcome_of(*result)),
{
    match result {
        Ok(info) => info.display_text(),
        Err(error) => concat("探测失败: ", error.as_str()),
    }
}

impl Worker {
    /// What the worker asks for.
    pub fn action(&self) -> (action: WorkerAction<'_>)
        ensures
            action@ == asked(self@),
    {
        match self {
            Worker::LoadConfig => WorkerAction::LoadConfig,
            Worker::ReadSystemProxy { .. } => WorkerAction::ReadSystemProxy,
            Worker::Connect { proxy, .. } => WorkerAction::Connect {
                proxy,
                timeout_secs: PROBE_TIMEOUT_SECS,
            },
            Worker::Probe { agent, run, .. } => WorkerAction::Request {
                agent,
                url: run.url(),
                user_agent: USER_AGENT,
            },
            Worker::Publish { text, .. } => WorkerAction::Publish(text.as_str()),
            Worker::Sleep { refresh_secs } => WorkerAction::Sleep(*refresh_secs),
        }
    }

    /// Goes on by what came of it.
    pub fn advance(self, event: WorkerEvent) -> (next: Worker)
        ensures
            next@ == worker_step(self@, event@),
    {
        match (self, event) {
            (Worker::LoadConfig, WorkerEvent::Config(config)) => {
                let chars = chars_of(config.proxy_override.as_str());
                proof {
                    lemma_trimmed(config.proxy_override@);
                }
                if trim(chars.as_slice()).len() == 0 {
                    Worker::ReadSystemProxy { config }
                } else {
                    let proxy = resolve_effective_proxy(
                        Some(config.proxy_override.as_str()),
                        None,
                    );
                    Worker::Connect { config, proxy }
                }
            },
            (Worker::ReadSystemProxy { config }, WorkerEvent::SystemProxy { enable, server }) => {
                let system = match &server {
                    Some(server) => read_system_proxy(enable, Some(server.as_str())),
                    None => read_system_proxy(enable, None),
                };
                Worker::Connect { config, proxy: resolve_effective_proxy(None, system) }
            },
            (Worker::Connect { config, proxy: _ }, WorkerEvent::Connected(result)) => {
                let refresh_secs: u64 = effectiveRefreshSecs(config.refresh_secs);
                match result {
                    Ok(agent) => Worker::Probe {
                        refresh_secs,
                        agent,
                        run: FallbackRun::start(Some(config.probe_url.as_str())),
                    },
                    Err(error) => Worker::Publish {
                        refresh_secs,
                        text: published_text(&Err(error)),
                    },
                }
            },
            (Worker::Probe { refresh_secs, agent, run }, WorkerEvent::Reply(reply)) => {
                match probeWithFallback(run, &reply) {
                    FallbackStep::Request(run) => Worker::Probe { refresh_secs, agent, run },
                    FallbackStep::Finished(result) => Worker::Publish {
                        refresh_secs,
                        text: published_text(&result),
                    },
                }
            },
            (Worker::Publish { refresh_secs, text: _ }, WorkerEvent::Returned) => Worker::Sleep {
                refresh_secs,
            },
            (Worker::Sleep { refresh_secs: _ }, WorkerEvent::Returned) => Worker::LoadConfig,
            (worker, _) => worker,
        }
    }
}

/// Where a worker stands after a series of events.
pub open spec fn worker_after(worker: WorkerView, events: Seq<EventView>) -> WorkerView
    decreases events.len(),
{
    if events.len() == 0 {
        worker
    } else {
        worker_step(worker_after(worker, events.drop_last()), events.last())
    }
}

/// The events that lead a round to its proxy. The system is asked only where there is no override.
pub open spec fn opening(
    settings: Settings,
    enable: Option<u32>,
    server: Option<Seq<char>>,
) -> Seq<EventView> {
    if is_blank(settings.proxy_override) {
        seq![EventView::Config(settings), EventView::SystemProxy { enable, server }]
    } else {
        seq![EventView::Config(settings)]
    }
}

/// The answers of services, as events.
pub open spec fn reply_events(replies: Seq<ReplyView>) -> Seq<EventView> {
    replies.map_values(|reply: ReplyView| EventView::Reply(reply))
}

/// A round goes through the override, else the system proxy, else directly; with an override it
/// does not read the settings of the system.
pub proof fn round_chooses_the_proxy(
    settings: Settings,
    enable: Option<u32>,
    server: Option<Seq<char>>,
)
    ensures
        worker_after(WorkerView::LoadConfig, opening(settings, enable, server)) == (
        WorkerView::Connect {
            settings,
            choice: proxy_choice(Some(settings.proxy_override), system_proxy_url(enable, server)),
        }),
        !is_blank(settings.proxy_override) ==> opening(settings, enable, server) == seq![
            EventView::Config(settings),
        ],
        is_blank(settings.proxy_override) ==> asked(
            worker_after(WorkerView::LoadConfig, seq![EventView::Config(settings)]),
        ) == ActionView::ReadSystemProxy,
{
    let events = opening(settings, enable, server);
    let first = seq![EventView::Config(settings)];
    lemma_worker_after_push(WorkerView::LoadConfig, Seq::empty(), EventView::Config(settings));
    assert(Seq::<EventView>::empty().push(EventView::Config(settings)) == first);
    if is_blank(settings.proxy_override) {
        let second = EventView::SystemProxy { enable, server };
        lemma_worker_after_push(WorkerView::LoadConfig, first, second);
        assert(first.push(second) == events);
    }
}

/// An agent that cannot be built ends a round with a text that says so.
pub proof fn round_reports_a_failed_connection(
    settings: Settings,
    enable: Option<u32>,
    server: Option<Seq<char>>,
    error: Seq<char>,
)
    ensures
        worker_after(
            WorkerView::LoadConfig,
            opening(settings, enable, server).push(EventView::Connected(Err(error))),
        ) == (WorkerView::Publish {
            refresh_secs: effective_secs(settings.refresh_secs),
            text: published(Err(error)),
        }),
{
    round_chooses_the_proxy(settings, enable, server);
    lemma_worker_after_push(
        WorkerView::LoadConfig,
        opening(settings, enable, server),
        EventView::Connected(Err(error)),
    );
}

/// Once the agent is built, a round follows the probe: it asks what the probe asks, and publishes
/// what the probe finds.
pub proof fn round_follows_the_probe(
    settings: Settings,
    enable: Option<u32>,
    server: Option<Seq<char>>,
    agent: ureq::Agent,
    replies: Seq<ReplyView>,
)
    ensures
        worker_after(
            WorkerView::LoadConfig,
            opening(settings, enable, server).push(EventView::Connected(Ok(agent))) + reply_events(
                replies,
            ),
        ) == probing(
            effective_secs(settings.refresh_secs),
            agent,
            probe_after(
                StepView::Request(first_request(candidates(Some(settings.probe_url)))),
                replies,
            ),
        ),
    decreases replies.len(),
{
    let start = opening(settings, enable, server).push(EventView::Connected(Ok(agent)));
    let step = StepView::Request(first_request(candidates(Some(settings.probe_url))));
    if replies.len() == 0 {
        round_chooses_the_proxy(settings, enable, server);
        lemma_worker_after_push(
            WorkerView::LoadConfig,
            opening(settings, enable, server),
            EventView::Connected(Ok(agent)),
        );
        assert(start + reply_events(replies) == start);
    } else {
        let init = replies.drop_last();
        let reply = replies.last();
        round_follows_the_probe(settings, enable, server, agent, init);
        lemma_probe_after_push(step, init, reply);
        assert(init.push(reply) == replies);
        lemma_worker_after_push(
            WorkerView::LoadConfig,
            start + reply_events(init),
            EventView::Reply(reply),
        );
        assert((start + reply_events(init)).push(EventView::Reply(reply)) == start + reply_events(
            replies,
        ));
    }
}

/// A round asks for an agent for the proxy that it chose, with five seconds for an answer, and
/// every request of the round goes out with the agent that it was given.
pub proof fn requests_use_the_agent_of_the_round(
    settings: Settings,
    enable: Option<u32>,
    server: Option<Seq<char>>,
    agent: ureq::Agent,
    replies: Seq<ReplyView>,
)
    ensures
        asked(worker_after(WorkerView::LoadConfig, opening(settings, enable, server))) == (
        ActionView::Connect {
            choice: proxy_choice(Some(settings.proxy_override), system_proxy_url(enable, server)),
            timeout_secs: 5,
        }),
        asked(
            worker_after(
                WorkerView::LoadConfig,
                opening(settings, enable, server).push(EventView::Connected(Ok(agent)))
                    + reply_events(replies),
            ),
        ) matches ActionView::Request { agent: used, .. } ==> used == agent,
{
    round_chooses_the_proxy(settings, enable, server);
    round_follows_the_probe(settings, enable, server, agent, replies);
}

/// A lookup service that is set in the configuration is the first that a round asks.
pub proof fn configured_service_is_asked_first(
    settings: Settings,
    enable: Option<u32>,
    server: Option<Seq<char>>,
    agent: ureq::Agent,
)
    requires
        !is_blank(settings.probe_url),
    ensures
        asked(
            worker_after(
                WorkerView::LoadConfig,
                opening(settings, enable, server).push(EventView::Connected(Ok(agent))),
            ),
        ) == (ActionView::Request {
            agent,
            url: trimmed(settings.probe_url),
            user_agent: "ipDetect/0.1"@,
        }),
{
    let start = opening(settings, enable, server).push(EventView::Connected(Ok(agent)));
    let none: Seq<ReplyView> = Seq::empty();
    round_follows_the_probe(settings, enable, server, agent, none);
    assert(start + reply_events(none) == start);
    candidates_are_distinct(Some(settings.probe_url));
}

/// What is published is the first address that a service gives, as it is shown.
pub proof fn round_publishes_the_first_address(
    settings: Settings,
    enable: Option<u32>,
    server: Option<Seq<char>>,
    agent: ureq::Agent,
    failed: Seq<ReplyView>,
    reply: ReplyView,
    info: AddressInfo,
)
    requires
        failed.len() < candidates(Some(settings.probe_url)).len(),
        all_fail(failed),
        reply_outcome(reply) == Ok::<AddressInfo, Seq<char>>(info),
    ensures
        worker_after(
            WorkerView::LoadConfig,
            opening(settings, enable, server).push(EventView::Connected(Ok(agent))) + reply_events(
                failed.push(reply),
            ),
        ) == (WorkerView::Publish {
            refresh_secs: effective_secs(settings.refresh_secs),
            text: shown(info),
        }),
{
    round_follows_the_probe(settings, enable, server, agent, failed.push(reply));
    first_address_wins(candidates(Some(settings.probe_url)), failed, reply, info);
}

/// Where every service fails, what is published says why each of them did.
pub proof fn round_reports_failed_services(
    settings: Settings,
    enable: Option<u32>,
    server: Option<Seq<char>>,
    agent: ureq::Agent,
    replies: Seq<ReplyView>,
)
    requires
        replies.len() == candidates(Some(settings.probe_url)).len(),
        all_fail(replies),
    ensures
        worker_after(
            WorkerView::LoadConfig,
            opening(settings, enable, server).push(EventView::Connected(Ok(agent))) + reply_events(
                replies,
            ),
        ) == (WorkerView::Publish {
            refresh_secs: effective_secs(settings.refresh_secs),
            text: published(
                Err(all_failed(failures(candidates(Some(settings.probe_url)), replies))),
            ),
        }),
{
    round_follows_the_probe(settings, enable, server, agent, replies);
    all_services_may_fail(candidates(Some(settings.probe_url)), replies);
}

/// The text is published as it is; then the worker waits for the interval of the round, whichever
/// that is, and begins the next round with the settings as they are.
pub proof fn round_is_followed_by_the_next(refresh_secs: u64, text: Seq<char>)
    ensures
        worker_after(
            WorkerView::Publish { refresh_secs, text },
            seq![EventView::Returned, EventView::Returned],
        ) == WorkerView::LoadConfig,
        asked(WorkerView::Publish { refresh_secs, text }) == ActionView::Publish(text),
        asked(
            worker_after(WorkerView::Publish { refresh_secs, text }, seq![EventView::Returned]),
        ) == ActionView::Sleep(refresh_secs),
        asked(WorkerView::LoadConfig) == ActionView::LoadConfig,
{
    let first = seq![EventView::Returned];
    let worker = WorkerView::Publish { refresh_secs, text };
    lemma_worker_after_push(worker, Seq::empty(), EventView::Returned);
    assert(Seq::<EventView>::empty().push(EventView::Returned) == first);
    lemma_worker_after_push(worker, first, EventView::Returned);
    assert(first.push(EventView::Returned) == seq![EventView::Returned, EventView::Returned]);
}

/// However the events fall, the worker never waits less than the minimum between rounds.
pub proof fn rounds_keep_their_distance(events: Seq<EventView>)
    ensures
        asked(worker_after(WorkerView::LoadConfig, events)) matches ActionView::Sleep(secs) ==> secs
            >= MIN_REFRESH_SECS,
{
    lemma_interval(events);
}

/// The interval that a round carries along is not under the minimum.
spec fn interval_is_kept(worker: WorkerView) -> bool {
    match worker {
        WorkerView::Probe { refresh_secs, .. } => refresh_secs >= MIN_REFRESH_SECS,
        WorkerView::Publish { refresh_secs, .. } => refresh_secs >= MIN_REFRESH_SECS,
        WorkerView::Sleep { refresh_secs } => refresh_secs >= MIN_REFRESH_SECS,
        _ => true,
    }
}

proof fn lemma_interval(events: Seq<EventView>)
    ensures
        interval_is_kept(worker_after(WorkerView::LoadConfig, events)),
    decreases events.len(),
{
    if events.len() > 0 {
        lemma_interval(events.drop_last());
    }
}

proof fn lemma_worker_after_push(worker: WorkerView, events: Seq<EventView>, event: EventView)
    ensures
        worker_after(worker, events.push(event)) == worker_step(
            worker_after(worker, events),
            event,
        ),
{
    assert(events.push(event).drop_last() == events);
}

/// What is published of an address is how it is shown; what is published of an error is the error,
/// whichever it is, behind its lead.
pub proof fn published_text_tells_the_result(info: AddressInfo, error: Seq<char>)
    ensures
        published(Ok(info)) == shown(info),
        published(Err(error)) == "探测失败: "@ + error,
{
}

/// An event that is not what comes of the thing that was asked for changes nothing, whatever it
/// is.
pub proof fn other_events_change_nothing(worker: WorkerView, event: EventView)
    requires
        !(worker is LoadConfig && event is Config),
        !(worker is ReadSystemProxy && event is SystemProxy),
        !(worker is Connect && event is Connected),
        !(worker is Probe && event is Reply),
        !(worker is Publish && event is Returned),
        !(worker is Sleep && event is Returned),
    ensures
        worker_step(worker, event) == worker,
{
}

/// In the midst of a probe the worker goes on as the probe does, with the same agent and interval:
/// an address is published at once, a failure leads to the next service, and the last failure is
/// published.
pub proof fn worker_moves_on_only_on_failure(
    refresh_secs: u64,
    agent: ureq::Agent,
    run: RunView,
    reply: ReplyView,
)
    ensures
        reply_outcome(reply) matches Ok(info) ==> worker_step(
            WorkerView::Probe { refresh_secs, agent, run },
            EventView::Reply(reply),
        ) == (WorkerView::Publish { refresh_secs, text: shown(info) }),
        reply_outcome(reply) is Err && run.rest.len() > 0 ==> (asked(
            worker_step(WorkerView::Probe { refresh_secs, agent, run }, EventView::Reply(reply)),
        ) == (ActionView::Request {
            agent,
            url: run.rest[0],
            user_agent: "ipDetect/0.1"@,
        })),
        reply_outcome(reply) is Err && run.rest.len() == 0 ==> (asked(
            worker_step(WorkerView::Probe { refresh_secs, agent, run }, EventView::Reply(reply)),
        ) matches ActionView::Publish(text) && "探测失败: "@.is_prefix_of(text)),
{
    if reply_outcome(reply) is Err && run.rest.len() == 0 {
        let next = worker_step(
            WorkerView::Probe { refresh_secs, agent, run },
            EventView::Reply(reply),
        );
        let told = fallback_step(run, reply)->Finished_0->Err_0;
        let lead = "探测失败: "@;
        assert((lead + told).subrange(0, lead.len() as int) =~= lead);
        assert(asked(next) == ActionView::Publish(lead + told));
    }
}

/// Contracts speak of a worker, what it asks for and what comes of it as they are.
pub proof fn workers_stand_for_their_fields(
    config: Config,
    proxy: EffectiveProxy,
    refresh_secs: u64,
    agent: ureq::Agent,
    run: FallbackRun,
    text: String,
    reply: ProbeReply,
    enable: Option<u32>,
    server: Option<String>,
)
    ensures
        Worker::LoadConfig@ == WorkerView::LoadConfig,
        (Worker::ReadSystemProxy { config })@ == (WorkerView::ReadSystemProxy {
            settings: config@,
        }),
        (Worker::Connect { config, proxy })@ == (WorkerView::Connect {
            settings: config@,
            choice: proxy@,
        }),
        (Worker::Probe { refresh_secs, agent, run })@ == (WorkerView::Probe {
            refresh_secs,
            agent,
            run: run@,
        }),
        (Worker::Publish { refresh_secs, text })@ == (WorkerView::Publish {
            refresh_secs,
            text: text@,
        }),
        (Worker::Sleep { refresh_secs })@ == (WorkerView::Sleep { refresh_secs }),
        WorkerEvent::Config(config)@ == EventView::Config(config@),
        (WorkerEvent::SystemProxy { enable, server })@ == (EventView::SystemProxy {
            enable,
            server: text_of(server),
        }),
        WorkerEvent::Connected(Ok(agent))@ == EventView::Connected(Ok(agent)),
        WorkerEvent::Connected(Err(text))@ == EventView::Connected(Err(text@)),
        WorkerEvent::Reply(reply)@ == EventView::Reply(reply@),
        WorkerEvent::Returned@ == EventView::Returned,
{
}

} // verus!
