//! Finding the outbound address: what lookup services answer, and which one is asked next.
use crate::address::ip_address;
#[allow(unused_imports)]
use crate::address::is_ip_address;
use crate::json::{findJsonString, parse_json, Json};
#[allow(unused_imports)]
use crate::json::{earliest_name_counts, found_text, member, parsed_json, text_in, JsonTree};
use crate::text::{chars_of, concat, in_capitals, join, lines, starts_with, string_of, trim};
#[allow(unused_imports)]
use crate::text::{
    ascii_upper, contains_text, is_ascii_letter, is_blank, is_white_space, joined,
    joined_lines_are_read_again, lemma_trimmed, lemma_trimmed_fixed, lines_of, occurs_at, str_of,
    str_texts, text_of, texts, trimmed, views,
};
use vstd::prelude::*;
use vstd::slice::slice_subrange;

verus! {

/// The trace service of Cloudflare, which answers in lines `key=value`, `ip=` and `loc=` among
/// them.
pub const CLOUDFLARE_TRACE_URL: &'static str = "https://www.cloudflare.com/cdn-cgi/trace";

/// The lookup services that are built in, in the order in which they are asked.
pub const DEFAULT_PROBE_URLS: [&'static str; 8] = [
    "https://api.ip.sb/geoip/",
    "https://api.ipquery.io/?format=json",
    "https://api.myip.com/",
    "https://api.db-ip.com/v2/free/self",
    "https://free.freeipapi.com/api/json",
    "https://ipapi.co/json/",
    "https://1.1.1.1/cdn-cgi/trace",
    CLOUDFLARE_TRACE_URL,
];

/// An outbound address as the contracts speak of it.
pub struct AddressInfo {
    pub ip: Seq<char>,
    pub country_code: Seq<char>,
}

/// The outbound address that a probe found.
#[derive(Debug, Clone, PartialEq, Eq)]
pub struct IpInfo {
    /// The address.
    pub ip: String,
    /// The two-letter country code in capitals, such as `JP`; empty where none is to be had.
    pub country_code: String,
}

impl View for IpInfo {
    type V = AddressInfo;

    open spec fn view(&self) -> AddressInfo {
        AddressInfo { ip: self.ip@, country_code: self.country_code@ }
    }
}

/// The address in an optional value.
pub open spec fn info_of(info: Option<IpInfo>) -> Option<AddressInfo> {
    match info {
        Some(info) => Some(info@),
        None => None,
    }
}

/// How an address is shown: after its country code, where there is one.
pub open spec fn shown(info: AddressInfo) -> Seq<char> {
    if info.country_code.len() == 0 {
        info.ip
    } else {
        info.country_code + "  "@ + info.ip
    }
}

/// What follows `key` on the last line that starts with it.
pub open spec fn last_field(lines: Seq<Seq<char>>, key: Seq<char>) -> Option<Seq<char>>
    decreases lines.len(),
{
    if lines.len() == 0 {
        None
    } else if key.is_prefix_of(lines.last()) {
        Some(lines.last().skip(key.len() as int))
    } else {
        last_field(lines.drop_last(), key)
    }
}

/// Two letters.
pub open spec fn is_country_code(s: Seq<char>) -> bool {
    s.len() == 2 && is_ascii_letter(s[0]) && is_ascii_letter(s[1])
}

/// The country code that a text gives: two letters, in capitals. Any other text gives none.
pub open spec fn code_in(text: Option<Seq<char>>) -> Seq<char> {
    match text {
        Some(code) if is_country_code(code) => code.map_values(|c: char| ascii_upper(c)),
        _ => Seq::empty(),
    }
}

/// The address in a trace: its `ip` field, with the country code that its `loc` field gives.
pub open spec fn trace_info(body: Seq<char>) -> Option<AddressInfo> {
    match last_field(lines_of(body), "ip="@) {
        Some(ip) => Some(
            AddressInfo {
                ip: trimmed(ip),
                country_code: match last_field(lines_of(body), "loc="@) {
                    Some(loc) => code_in(Some(trimmed(loc))),
                    None => code_in(None),
                },
            },
        ),
        None => None,
    }
}

/// The names under which services give the address.
pub open spec fn ip_names() -> Seq<Seq<char>> {
    seq!["ip"@, "ipAddress"@, "query"@]
}

/// The names under which services give the country code.
pub open spec fn country_names() -> Seq<Seq<char>> {
    seq!["country_code"@, "countryCode"@, "cc"@, "iso_code"@, "country"@]
}

/// The address in a JSON document: the first text under one of the address names, if it is an IP
/// address, with the country code that the first text under one of the country names gives.
pub open spec fn json_info(tree: JsonTree) -> Option<AddressInfo> {
    match found_text(tree, ip_names()) {
        Some(ip) if is_ip_address(ip) => Some(
            AddressInfo {
                ip,
                country_code: code_in(found_text(tree, country_names())),
            },
        ),
        _ => None,
    }
}

/// The address in the answer of a service, which is a trace or else a JSON document.
pub open spec fn probe_info(body: Seq<char>) -> Option<AddressInfo> {
    match (trace_info(body), parsed_json(body)) {
        (Some(info), _) => Some(info),
        (None, Some(tree)) => json_info(tree),
        (None, None) => None,
    }
}

impl IpInfo {
    /// The text to show, such as `JP  1.2.3.4`; without a country code the address alone.
    pub fn display_text(&self) -> (text: String)
        ensures
            text@ == shown(self@),
    {
        if self.country_code.as_str().is_empty() {
            self.ip.clone()
        } else {
            let head = concat(self.country_code.as_str(), "  ");
            concat(head.as_str(), self.ip.as_str())
        }
    }
}

/// Reads the answer of a trace service: the fields `ip` and `loc`.
pub fn parse_trace(body: &str) -> (info: Option<IpInfo>)
    ensures
        info_of(info) == trace_info(body@),
{
    let ip_key = chars_of("ip=");
    let loc_key = chars_of("loc=");
    let chars = chars_of(body);
    let parts = lines(chars.as_slice());
    let ghost all = views(parts@);
    let mut ip: Option<String> = None;
    let mut loc: Option<String> = None;
    let mut i: usize = 0;
    assert(all.take(0) == Seq::<Seq<char>>::empty());
    proof {
        reveal_strlit("ip=");
        reveal_strlit("loc=");
    }
    while i < parts.len()
        invariant
            ip_key@ == "ip="@,
            loc_key@ == "loc="@,
            "ip="@.len() == 3,
            "loc="@.len() == 4,
            "ip="@[0] != "loc="@[0],
            all == views(parts@),
            i <= parts.len(),
            match ip {
                Some(ip) => last_field(all.take(i as int), "ip="@) matches Some(v) && ip@
                    == trimmed(v),
                None => last_field(all.take(i as int), "ip="@) is None,
            },
            match loc {
                Some(loc) => last_field(all.take(i as int), "loc="@) matches Some(v) && loc@
                    == trimmed(v),
                None => last_field(all.take(i as int), "loc="@) is None,
            },
        decreases parts.len() - i,
    {
        let line = parts[i];
        assert(all.take(i + 1).drop_last() == all.take(i as int));
        assert(all.take(i + 1).last() == line@);
        assert("ip="@.is_prefix_of(line@) ==> line@[0] == "ip="@[0]);
        assert("loc="@.is_prefix_of(line@) ==> line@[0] == "loc="@[0]);
        if starts_with(line, ip_key.as_slice()) {
            let value = slice_subrange(line, 3, line.len());
            assert(value@ == line@.skip(3));
            ip = Some(string_of(trim(value)));
        } else if starts_with(line, loc_key.as_slice()) {
            let value = slice_subrange(line, 4, line.len());
            assert(value@ == line@.skip(4));
            loc = Some(string_of(trim(value)));
        }
        i += 1;
    }
    assert(all.take(i as int) == all);
    match ip {
        Some(ip) => Some(IpInfo { ip, country_code: country_code(loc) }),
        None => None,
    }
}

/// The country code that a text gives.
fn country_code(text: Option<String>) -> (code: String)
    ensures
        code@ == code_in(text_of(text)),
{
    match text {
        Some(text) => {
            let chars = chars_of(text.as_str());
            if chars.len() == 2 && ascii_letter(chars[0]) && ascii_letter(chars[1]) {
                in_capitals(text.as_str())
            } else {
                String::new()
            }
        },
        None => String::new(),
    }
}

fn ascii_letter(c: char) -> (b: bool)
    ensures
        b == is_ascii_letter(c),
{
    let v: u32 = c as u32;
    (0x41 <= v && v <= 0x5a) || (0x61 <= v && v <= 0x7a)
}

/// The address in a JSON document.
pub fn info_from_json(json: &Json) -> (info: Option<IpInfo>)
    ensures
        info_of(info) == json_info(json.tree()),
{
    let ip_keys: [&'static str; 3] = ["ip", "ipAddress", "query"];
    let country_keys: [&'static str; 5] = [
        "country_code",
        "countryCode",
        "cc",
        "iso_code",
        "country",
    ];
    assert(str_texts(ip_keys@) == ip_names());
    assert(str_texts(country_keys@) == country_names());
    let ip = match findJsonString(json, ip_keys.as_slice()) {
        Some(ip) => ip,
        None => {
            return None;
        },
    };
    let chars = chars_of(ip.as_str());
    if !ip_address(chars.as_slice()) {
        return None;
    }
    let code = findJsonString(json, country_keys.as_slice());
    Some(IpInfo { ip, country_code: country_code(code) })
}

/// Reads the answer of a lookup service, be it a trace or a JSON document.
#[allow(non_snake_case)]
pub fn parseProbeResponse(body: &str) -> (info: Option<IpInfo>)
    ensures
        info_of(info) == probe_info(body@),
{
    if let Some(info) = parse_trace(body) {
        return Some(info);
    }
    match parse_json(body) {
        Some(json) => info_from_json(&json),
        None => None,
    }
}

/// What came of a request to a lookup service.
#[derive(Debug, Clone)]
pub enum ProbeReply {
    /// The body of the answer.
    Body(String),
    /// The request failed, for the reason given.
    RequestFailed(String),
    /// The answer could not be read, for the reason given.
    ReadFailed(String),
}

/// What came of a request, as the contracts speak of it.
pub enum ReplyView {
    Body(Seq<char>),
    RequestFailed(Seq<char>),
    ReadFailed(Seq<char>),
}

impl View for ProbeReply {
    type V = ReplyView;

    open spec fn view(&self) -> ReplyView {
        match self {
            ProbeReply::Body(text) => ReplyView::Body(text@),
            ProbeReply::RequestFailed(reason) => ReplyView::RequestFailed(reason@),
            ProbeReply::ReadFailed(reason) => ReplyView::ReadFailed(reason@),
        }
    }
}

/// The address that a request yielded, or why it yielded none.
pub open spec fn reply_outcome(reply: ReplyView) -> Result<AddressInfo, Seq<char>> {
    match reply {
        ReplyView::Body(body) => match probe_info(body) {
            Some(info) => Ok(info),
            None => Err("响应中没有有效的 IP 与国家码"@),
        },
        ReplyView::RequestFailed(reason) => Err("请求失败: "@ + reason),
        ReplyView::ReadFailed(reason) => Err("读取响应失败: "@ + reason),
    }
}

/// The outcome in a result.
pub open spec fn outcome_of(result: Result<IpInfo, String>) -> Result<AddressInfo, Seq<char>> {
    match result {
        Ok(info) => Ok(info@),
        Err(error) => Err(error@),
    }
}

/// Turns what came of a request into an address, or into the reason why there is none.
#[allow(non_snake_case)]
pub fn requestProbe(reply: &ProbeReply) -> (result: Result<IpInfo, String>)
    ensures
        outcome_of(result) == reply_outcome(reply@),
{
    match reply {
        ProbeReply::Body(body) => match parseProbeResponse(body.as_str()) {
            Some(info) => Ok(info),
            None => Err("响应中没有有效的 IP 与国家码".to_owned()),
        },
        ProbeReply::RequestFailed(reason) => Err(concat("请求失败: ", reason.as_str())),
        ProbeReply::ReadFailed(reason) => Err(concat("读取响应失败: ", reason.as_str())),
    }
}

/// The built-in services.
pub open spec fn default_urls() -> Seq<Seq<char>> {
    str_texts(DEFAULT_PROBE_URLS@)
}

/// The services other than `url`, in their order.
pub open spec fn others(urls: Seq<Seq<char>>, url: Seq<char>) -> Seq<Seq<char>> {
    urls.filter(|u: Seq<char>| u != url)
}

/// The services of one probe, in the order in which they are asked: the preferred one, unless it
/// is blank, then the built-in ones. A preferred one that is built in is not asked again.
pub open spec fn candidates(preferred: Option<Seq<char>>) -> Seq<Seq<char>> {
    match preferred {
        Some(url) if trimmed(url).len() > 0 => seq![trimmed(url)] + others(
            default_urls(),
            trimmed(url),
        ),
        _ => default_urls(),
    }
}

/// A probe that waits for an answer, as the contracts speak of it.
pub struct RunView {
    /// The service that is being asked.
    pub url: Seq<char>,
    /// The services that come after it, in order.
    pub rest: Seq<Seq<char>>,
    /// Why the earlier ones failed, in order.
    pub errors: Seq<Seq<char>>,
}

/// A probe that waits for the answer of the service it asks.
#[derive(Debug)]
pub struct FallbackRun {
    url: String,
    rest: Vec<String>,
    errors: Vec<String>,
}

impl View for FallbackRun {
    type V = RunView;

    closed spec fn view(&self) -> RunView {
        RunView { url: self.url@, rest: texts(self.rest@), errors: texts(self.errors@) }
    }
}

/// How a probe goes on after an answer.
#[derive(Debug)]
pub enum FallbackStep {
    /// The next service is to be asked.
    Request(FallbackRun),
    /// The probe is over.
    Finished(Result<IpInfo, String>),
}

/// How a probe goes on, as the contracts speak of it.
pub enum StepView {
    Request(RunView),
    Finished(Result<AddressInfo, Seq<char>>),
}

impl View for FallbackStep {
    type V = StepView;

    open spec fn view(&self) -> StepView {
        match self {
            FallbackStep::Request(run) => StepView::Request(run@),
            FallbackStep::Finished(result) => StepView::Finished(outcome_of(*result)),
        }
    }
}

/// What a probe that asks `urls` in turn begins with.
pub open spec fn first_request(urls: Seq<Seq<char>>) -> RunView {
    RunView { url: urls[0], rest: urls.skip(1), errors: Seq::empty() }
}

/// The error of a probe that every service failed.
pub open spec fn all_failed(errors: Seq<Seq<char>>) -> Seq<char> {
    "所有出口 IP 接口均失败: "@ + joined(errors, " | "@)
}

/// How a probe goes on after an answer: an address ends it; a failure is noted and leads to the
/// next service, or ends the probe where none is left.
pub open spec fn fallback_step(run: RunView, reply: ReplyView) -> StepView {
    match reply_outcome(reply) {
        Ok(info) => StepView::Finished(Ok(info)),
        Err(error) => {
            let errors = run.errors.push(run.url + ": "@ + error);
            if run.rest.len() == 0 {
                StepView::Finished(Err(all_failed(errors)))
            } else {
                StepView::Request(RunView { url: run.rest[0], rest: run.rest.skip(1), errors })
            }
        },
    }
}

impl FallbackRun {
    /// Starts a probe. A preferred service that is not blank is asked first.
    pub fn start(preferred_url: Option<&str>) -> (run: FallbackRun)
        ensures
            run@ == first_request(candidates(str_of(preferred_url))),
    {
        let errors: Vec<String> = Vec::new();
        assert(texts(errors@) == Seq::<Seq<char>>::empty());
        let ghost all = candidates(str_of(preferred_url));
        if let Some(preferred) = preferred_url {
            let chars = chars_of(preferred);
            let url = string_of(trim(chars.as_slice()));
            if !url.as_str().is_empty() {
                let rest = built_in(Some(&url));
                assert(all.skip(1) == others(default_urls(), url@));
                return FallbackRun { url, rest, errors };
            }
        }
        let mut rest = built_in(None);
        assert(texts(rest@) == all);
        let url = rest.remove(0);
        assert(texts(rest@) == all.skip(1));
        FallbackRun { url, rest, errors }
    }

    /// The service that is to be asked.
    pub fn url(&self) -> (url: &str)
        ensures
            url@ == self@.url,
    {
        self.url.as_str()
    }
}

/// The built-in services, all or all but one.
fn built_in(but: Option<&String>) -> (urls: Vec<String>)
    ensures
        texts(urls@) == (match but {
            Some(url) => others(default_urls(), url@),
            None => default_urls(),
        }),
{
    let mut urls: Vec<String> = Vec::new();
    let mut i: usize = 0;
    proof {
        reveal(Seq::filter);
        assert(default_urls().take(0) == Seq::<Seq<char>>::empty());
    }
    while i < 8
        invariant
            i <= 8,
            texts(urls@) == (match but {
                Some(url) => others(default_urls().take(i as int), url@),
                None => default_urls().take(i as int),
            }),
        decreases 8 - i,
    {
        let ghost before = urls@;
        let next = DEFAULT_PROBE_URLS[i].to_owned();
        let ghost done = default_urls().take(i + 1);
        assert(done.drop_last() == default_urls().take(i as int));
        assert(done.last() == next@);
        proof {
            reveal(Seq::filter);
        }
        let wanted = match but {
            Some(url) => next != *url,
            None => true,
        };
        if wanted {
            urls.push(next);
            assert(texts(urls@) == texts(before).push(next@));
        }
        i += 1;
    }
    assert(default_urls().take(8) == default_urls());
    urls
}

/// Goes on with a probe after the answer of the service that it asked: the first address ends
/// it, a failure leads to the next service.
#[allow(non_snake_case)]
pub fn probeWithFallback(run: FallbackRun, reply: &ProbeReply) -> (step: FallbackStep)
    ensures
        step@ == fallback_step(run@, reply@),
{
    let ghost before = run@;
    let error = match requestProbe(reply) {
        Ok(info) => {
            return FallbackStep::Finished(Ok(info));
        },
        Err(error) => error,
    };
    let FallbackRun { url, mut rest, mut errors } = run;
    let head = concat(url.as_str(), ": ");
    let ghost earlier = errors@;
    errors.push(concat(head.as_str(), error.as_str()));
    assert(texts(errors@) == texts(earlier).push(url@ + ": "@ + error@));
    if rest.len() == 0 {
        let list = join(&errors, " | ");
        FallbackStep::Finished(Err(concat("所有出口 IP 接口均失败: ", list.as_str())))
    } else {
        let ghost pending = rest@;
        let next = rest.remove(0);
        assert(texts(rest@) == texts(pending).skip(1));
        FallbackStep::Request(FallbackRun { url: next, rest, errors })
    }
}

/// Where a probe stands after further answers.
pub open spec fn probe_after(step: StepView, replies: Seq<ReplyView>) -> StepView
    decreases replies.len(),
{
    match step {
        StepView::Request(run) if replies.len() > 0 => probe_after(
            fallback_step(run, replies[0]),
            replies.drop_first(),
        ),
        _ => step,
    }
}

/// Every answer lacks an address.
pub open spec fn all_fail(replies: Seq<ReplyView>) -> bool {
    forall|i: int| 0 <= i < replies.len() ==> reply_outcome(#[trigger] replies[i]) is Err
}

/// Why each of the services failed.
pub open spec fn failures(urls: Seq<Seq<char>>, replies: Seq<ReplyView>) -> Seq<Seq<char>> {
    Seq::new(replies.len(), |i: int| urls[i] + ": "@ + reply_outcome(replies[i])->Err_0)
}

proof fn lemma_failures(run: RunView, replies: Seq<ReplyView>)
    requires
        replies.len() <= run.rest.len(),
        all_fail(replies),
    ensures
        ({
            let urls = seq![run.url] + run.rest;
            let n = replies.len() as int;
            probe_after(StepView::Request(run), replies) == StepView::Request(
                RunView {
                    url: urls[n],
                    rest: run.rest.skip(n),
                    errors: run.errors + failures(urls, replies),
                },
            )
        }),
    decreases replies.len(),
{
    let urls = seq![run.url] + run.rest;
    let n = replies.len() as int;
    if n == 0 {
        assert(run.rest.skip(0) == run.rest);
        assert(run.errors + failures(urls, replies) == run.errors);
    } else {
        let tail = replies.drop_first();
        let next = fallback_step(run, replies[0])->Request_0;
        assert forall|i: int| 0 <= i < tail.len() implies reply_outcome(#[trigger] tail[i]) is Err by {
            assert(tail[i] == replies[i + 1]);
        }
        lemma_failures(next, tail);
        let later = seq![next.url] + next.rest;
        assert(later == urls.skip(1));
        assert(next.rest.skip(n - 1) == run.rest.skip(n));
        assert(next.errors + failures(later, tail) == run.errors + failures(urls, replies));
    }
}

/// While every answer fails, the services are asked in their order, each once.
pub proof fn services_are_asked_in_order(urls: Seq<Seq<char>>, replies: Seq<ReplyView>)
    requires
        replies.len() < urls.len(),
        all_fail(replies),
    ensures
        probe_after(StepView::Request(first_request(urls)), replies) == StepView::Request(
            RunView {
                url: urls[replies.len() as int],
                rest: urls.skip(replies.len() as int + 1),
                errors: failures(urls, replies),
            },
        ),
{
    let run = first_request(urls);
    let n = replies.len() as int;
    lemma_failures(run, replies);
    assert(seq![run.url] + run.rest == urls);
    assert(run.rest.skip(n) == urls.skip(n + 1));
    assert(run.errors + failures(urls, replies) == failures(urls, replies));
}

/// The first answer with an address ends the probe with that address.
pub proof fn first_address_wins(
    urls: Seq<Seq<char>>,
    failed: Seq<ReplyView>,
    reply: ReplyView,
    info: AddressInfo,
)
    requires
        failed.len() < urls.len(),
        all_fail(failed),
        reply_outcome(reply) == Ok::<AddressInfo, Seq<char>>(info),
    ensures
        probe_after(StepView::Request(first_request(urls)), failed.push(reply))
            == StepView::Finished(Ok(info)),
{
    let start = StepView::Request(first_request(urls));
    services_are_asked_in_order(urls, failed);
    lemma_probe_after_push(start, failed, reply);
}

/// Where every service fails, the probe fails, and its error tells why each of them did.
pub proof fn all_services_may_fail(urls: Seq<Seq<char>>, replies: Seq<ReplyView>)
    requires
        urls.len() > 0,
        replies.len() == urls.len(),
        all_fail(replies),
    ensures
        probe_after(StepView::Request(first_request(urls)), replies) == StepView::Finished(
            Err(all_failed(failures(urls, replies))),
        ),
{
    let start = StepView::Request(first_request(urls));
    let init = replies.drop_last();
    assert forall|i: int| 0 <= i < init.len() implies reply_outcome(#[trigger] init[i]) is Err by {
        assert(init[i] == replies[i]);
    }
    services_are_asked_in_order(urls, init);
    lemma_probe_after_push(start, init, replies.last());
    assert(init.push(replies.last()) == replies);
    assert(reply_outcome(replies.last()) is Err);
    assert(failures(urls, replies) == failures(urls, init).push(failures(urls, replies).last()));
}

/// One answer more takes a probe one step further.
pub proof fn lemma_probe_after_push(step: StepView, replies: Seq<ReplyView>, reply: ReplyView)
    ensures
        probe_after(step, replies.push(reply)) == (match probe_after(step, replies) {
            StepView::Request(run) => fallback_step(run, reply),
            StepView::Finished(result) => StepView::Finished(result),
        }),
    decreases replies.len(),
{
    let longer = replies.push(reply);
    match step {
        StepView::Request(run) => {
            if replies.len() == 0 {
                let none = longer.drop_first();
                assert(none.len() == 0);
                assert(probe_after(fallback_step(run, reply), none) == fallback_step(run, reply));
            } else {
                assert(longer.drop_first() == replies.drop_first().push(reply));
                lemma_probe_after_push(
                    fallback_step(run, replies[0]),
                    replies.drop_first(),
                    reply,
                );
            }
        },
        StepView::Finished(_) => {},
    }
}

/// The built-in services are these eight, in this order. They are asked over HTTPS, and none of
/// them stands there twice.
pub proof fn default_services_are_secure_and_distinct()
    ensures
        forall|i: int|
            0 <= i < default_urls().len() ==> "https://"@.is_prefix_of(
                #[trigger] default_urls()[i],
            ),
        default_urls().no_duplicates(),
        default_urls() == seq![
            "https://api.ip.sb/geoip/"@,
            "https://api.ipquery.io/?format=json"@,
            "https://api.myip.com/"@,
            "https://api.db-ip.com/v2/free/self"@,
            "https://free.freeipapi.com/api/json"@,
            "https://ipapi.co/json/"@,
            "https://1.1.1.1/cdn-cgi/trace"@,
            "https://www.cloudflare.com/cdn-cgi/trace"@,
        ],
{
    reveal_strlit("https://");
    reveal_strlit("https://api.ip.sb/geoip/");
    reveal_strlit("https://api.ipquery.io/?format=json");
    reveal_strlit("https://api.myip.com/");
    reveal_strlit("https://api.db-ip.com/v2/free/self");
    reveal_strlit("https://free.freeipapi.com/api/json");
    reveal_strlit("https://ipapi.co/json/");
    reveal_strlit("https://1.1.1.1/cdn-cgi/trace");
    reveal_strlit("https://www.cloudflare.com/cdn-cgi/trace");
    assert(default_urls()[1][8] == 'a');
    assert(default_urls()[4][8] == 'f');
    assert forall|i: int| 0 <= i < default_urls().len() implies "https://"@.is_prefix_of(
        #[trigger] default_urls()[i],
    ) by {
        assert(default_urls()[i].subrange(0, 8) =~= "https://"@);
    }
}

/// A preferred service that is not blank is asked first. No service is asked twice, every built-in
/// one is asked if need be, and no other one besides these; without a preferred service the
/// built-in ones are asked in their order.
pub proof fn candidates_are_distinct(preferred: Option<Seq<char>>)
    ensures
        preferred matches Some(url) ==> !is_blank(url) ==> candidates(preferred)[0] == trimmed(url),
        candidates(preferred).no_duplicates(),
        forall|i: int|
            0 <= i < default_urls().len() ==> candidates(preferred).contains(
                #[trigger] default_urls()[i],
            ),
        forall|i: int|
            0 <= i < candidates(preferred).len() ==> default_urls().contains(
                #[trigger] candidates(preferred)[i],
            ) || (preferred matches Some(url) && i == 0 && candidates(preferred)[i] == trimmed(url)),
        preferred matches Some(url) ==> is_blank(url) ==> candidates(preferred) == default_urls(),
        preferred is None ==> candidates(preferred) == default_urls(),
{
    default_services_are_secure_and_distinct();
    let all = candidates(preferred);
    match preferred {
        Some(url) => {
            lemma_trimmed(url);
            if !is_blank(url) {
                let first = trimmed(url);
                let rest = others(default_urls(), first);
                lemma_others(default_urls(), first);
                assert forall|i: int, j: int|
                    0 <= i < all.len() && 0 <= j < all.len() && i != j implies all[i] != all[j] by {
                    if i > 0 {
                        assert(all[i] == rest[i - 1]);
                    }
                    if j > 0 {
                        assert(all[j] == rest[j - 1]);
                    }
                }
                assert forall|i: int| 0 <= i < default_urls().len() implies all.contains(
                    #[trigger] default_urls()[i],
                ) by {
                    if default_urls()[i] == first {
                        assert(all[0] == default_urls()[i]);
                    } else {
                        let k = choose|k: int| 0 <= k < rest.len() && rest[k] == default_urls()[i];
                        assert(all[k + 1] == default_urls()[i]);
                    }
                }
                assert forall|i: int| 0 < i < all.len() implies default_urls().contains(
                    #[trigger] all[i],
                ) by {
                    assert(all[i] == rest[i - 1]);
                }
            }
        },
        None => {},
    }
}

/// The others are all but the one, each once.
proof fn lemma_others(urls: Seq<Seq<char>>, url: Seq<char>)
    requires
        urls.no_duplicates(),
    ensures
        others(urls, url).no_duplicates(),
        forall|i: int|
            0 <= i < others(urls, url).len() ==> #[trigger] others(urls, url)[i] != url
                && urls.contains(others(urls, url)[i]),
        forall|i: int|
            0 <= i < urls.len() && #[trigger] urls[i] != url ==> others(urls, url).contains(urls[i]),
    decreases urls.len(),
{
    reveal(Seq::filter);
    if urls.len() > 0 {
        let init = urls.drop_last();
        let kept = others(init, url);
        let all = others(urls, url);
        lemma_others(init, url);
        assert forall|i: int| 0 <= i < all.len() implies #[trigger] all[i] != url && urls.contains(
            all[i],
        ) by {
            if i < kept.len() {
                let k = choose|k: int| 0 <= k < init.len() && init[k] == kept[i];
                assert(urls[k] == all[i]);
            } else {
                assert(urls[urls.len() - 1] == all[i]);
            }
        }
        if urls.last() != url {
            assert forall|i: int| 0 <= i < kept.len() implies #[trigger] kept[i] != urls.last() by {
                let k = choose|k: int| 0 <= k < init.len() && init[k] == kept[i];
                assert(urls[k] == kept[i]);
            }
        }
        assert forall|i: int| 0 <= i < urls.len() && #[trigger] urls[i] != url implies all.contains(
            urls[i],
        ) by {
            if i < init.len() {
                assert(init[i] == urls[i]);
                let k = choose|k: int| 0 <= k < kept.len() && kept[k] == init[i];
                assert(all[k] == urls[i]);
            } else {
                assert(all[kept.len() as int] == urls[i]);
            }
        }
    }
}

/// Two capital letters, or nothing.
pub open spec fn is_shown_code(s: Seq<char>) -> bool {
    s.len() == 0 || (s.len() == 2 && 'A' <= s[0] <= 'Z' && 'A' <= s[1] <= 'Z')
}

/// Whatever a service answers, the country code that is taken from it is two capital letters or
/// empty.
pub proof fn country_code_is_two_capitals_or_empty(body: Seq<char>)
    ensures
        trace_info(body) matches Some(info) ==> is_shown_code(info.country_code),
        probe_info(body) matches Some(info) ==> is_shown_code(info.country_code),
{
    if let Some(loc) = last_field(lines_of(body), "loc="@) {
        lemma_code_in(Some(trimmed(loc)));
    }
    if let Some(tree) = parsed_json(body) {
        lemma_code_in(found_text(tree, country_names()));
    }
}

proof fn lemma_code_in(text: Option<Seq<char>>)
    ensures
        is_shown_code(code_in(text)),
{
    if let Some(code) = text {
        if is_country_code(code) {
            lemma_capital(code[0]);
            lemma_capital(code[1]);
        }
    }
}

/// An address that comes from a JSON document is an IP address.
pub proof fn json_address_is_well_formed(tree: JsonTree)
    ensures
        json_info(tree) matches Some(info) ==> is_ip_address(info.ip),
{
}

proof fn lemma_capital(c: char)
    ensures
        is_ascii_letter(c) ==> 'A' <= ascii_upper(c) <= 'Z',
{
}

/// A trace gives an address just where one of its lines starts with `ip=`; without a line that
/// starts with `loc=` the country code is empty.
pub proof fn trace_needs_an_ip_line(body: Seq<char>)
    ensures
        trace_info(body) is Some <==> exists|i: int|
            0 <= i < lines_of(body).len() && "ip="@.is_prefix_of(#[trigger] lines_of(body)[i]),
        trace_info(body) matches Some(info) ==> (forall|i: int|
            0 <= i < lines_of(body).len() ==> !"loc="@.is_prefix_of(#[trigger] lines_of(body)[i]))
            ==> info.country_code.len() == 0,
{
    lemma_last_field(lines_of(body), "ip="@);
    lemma_last_field(lines_of(body), "loc="@);
}

proof fn lemma_last_field(lines: Seq<Seq<char>>, key: Seq<char>)
    ensures
        last_field(lines, key) is Some <==> exists|i: int|
            0 <= i < lines.len() && key.is_prefix_of(#[trigger] lines[i]),
    decreases lines.len(),
{
    if lines.len() > 0 {
        let init = lines.drop_last();
        lemma_last_field(init, key);
        assert forall|i: int| 0 <= i < init.len() implies init[i] == #[trigger] lines[i] by {}
        if key.is_prefix_of(lines.last()) {
            assert(key.is_prefix_of(lines[lines.len() - 1]));
        } else if exists|i: int| 0 <= i < lines.len() && key.is_prefix_of(#[trigger] lines[i]) {
            let i = choose|i: int| 0 <= i < lines.len() && key.is_prefix_of(#[trigger] lines[i]);
            assert(key.is_prefix_of(init[i]));
        } else if last_field(init, key) is Some {
            let i = choose|i: int| 0 <= i < init.len() && key.is_prefix_of(#[trigger] init[i]);
            assert(key.is_prefix_of(lines[i]));
        }
    }
}

/// A trace is read as a trace, whatever else its text may be.
pub proof fn trace_comes_first(body: Seq<char>)
    ensures
        trace_info(body) is Some ==> probe_info(body) == trace_info(body),
        trace_info(body) is None ==> probe_info(body) == (match parsed_json(body) {
            Some(tree) => json_info(tree),
            None => None,
        }),
{
}

/// How an address is shown: its text ends with the address. With a country code it begins with the
/// code, and two blanks stand between; without one it is the address alone.
pub proof fn shown_text_has_code_and_address(info: AddressInfo)
    ensures
        shown(info).skip(shown(info).len() - info.ip.len()) == info.ip,
        info.country_code.len() == 0 ==> shown(info).len() == info.ip.len(),
        info.country_code.len() > 0 ==> {
            let n = info.country_code.len() as int;
            &&& shown(info).len() == n + 2 + info.ip.len()
            &&& shown(info).take(n) == info.country_code
            &&& shown(info)[n] == ' '
            &&& shown(info)[n + 1] == ' '
        },
{
    reveal_strlit("  ");
}

/// The field of a key is what follows it on the last line that starts with it, however many lines
/// come before or after; without such a line there is none.
pub proof fn last_line_of_a_key_counts(lines: Seq<Seq<char>>, key: Seq<char>, i: int)
    requires
        -1 <= i < lines.len(),
        i >= 0 ==> key.is_prefix_of(lines[i]),
        forall|k: int| i < k < lines.len() ==> !key.is_prefix_of(#[trigger] lines[k]),
    ensures
        i >= 0 ==> last_field(lines, key) == Some(lines[i].skip(key.len() as int)),
        i < 0 ==> last_field(lines, key) is None,
    decreases lines.len(),
{
    if lines.len() > 0 && i < lines.len() - 1 {
        let init = lines.drop_last();
        assert(!key.is_prefix_of(lines[lines.len() - 1]));
        assert forall|k: int| i < k < init.len() implies !key.is_prefix_of(#[trigger] init[k]) by {
            assert(init[k] == lines[k]);
        }
        if i >= 0 {
            assert(init[i] == lines[i]);
        }
        last_line_of_a_key_counts(init, key, i);
    }
}

/// Two letters give a country code, which is those letters in capitals; no other text gives one.
pub proof fn two_letters_are_a_country_code(text: Seq<char>)
    ensures
        text.len() == 2 && ('A' <= text[0] <= 'Z' || 'a' <= text[0] <= 'z') && ('A' <= text[1]
            <= 'Z' || 'a' <= text[1] <= 'z') ==> code_in(Some(text)) == seq![
            ascii_upper(text[0]),
            ascii_upper(text[1]),
        ],
        text.len() != 2 || !('A' <= text[0] <= 'Z' || 'a' <= text[0] <= 'z') || !('A' <= text[1]
            <= 'Z' || 'a' <= text[1] <= 'z') ==> code_in(Some(text)).len() == 0,
        code_in(None).len() == 0,
{
    if is_country_code(text) {
        assert(code_in(Some(text)) =~= seq![ascii_upper(text[0]), ascii_upper(text[1])]);
    }
}

/// A trace gives the address on the last of its lines that start with `ip=`, and the country code
/// on the last of those that start with `loc=`, however many other lines it has and wherever they
/// stand. `i` and `j` are the positions of those lines, -1 where there is none.
pub proof fn trace_gives_its_fields(body: Seq<char>, i: int, j: int)
    requires
        -1 <= i < lines_of(body).len(),
        i >= 0 ==> "ip="@.is_prefix_of(lines_of(body)[i]),
        forall|k: int|
            i < k < lines_of(body).len() ==> !"ip="@.is_prefix_of(#[trigger] lines_of(body)[k]),
        -1 <= j < lines_of(body).len(),
        j >= 0 ==> "loc="@.is_prefix_of(lines_of(body)[j]),
        forall|k: int|
            j < k < lines_of(body).len() ==> !"loc="@.is_prefix_of(#[trigger] lines_of(body)[k]),
    ensures
        trace_info(body) is Some <==> i >= 0,
        trace_info(body) matches Some(info) ==> {
            &&& info.ip == trimmed(lines_of(body)[i].skip(3))
            &&& j < 0 ==> info.country_code.len() == 0
            &&& j >= 0 ==> info.country_code == code_in(Some(trimmed(lines_of(body)[j].skip(4))))
        },
        probe_info(body) is Some <== i >= 0,
        i >= 0 ==> probe_info(body) == trace_info(body),
{
    reveal_strlit("ip=");
    reveal_strlit("loc=");
    last_line_of_a_key_counts(lines_of(body), "ip="@, i);
    last_line_of_a_key_counts(lines_of(body), "loc="@, j);
}

/// The text of a trace, line by line: whatever the lines are, those with `ip=` and `loc=` give the
/// address and the country.
pub proof fn trace_text_gives_its_fields(
    lines: Seq<Seq<char>>,
    i: int,
    ip: Seq<char>,
    j: int,
    a: char,
    b: char,
)
    requires
        0 <= i < lines.len(),
        0 <= j < lines.len(),
        lines[i] == "ip="@ + ip,
        lines[j] == "loc="@ + seq![a, b],
        is_ascii_letter(a) && is_ascii_letter(b),
        forall|k: int| i < k < lines.len() ==> !"ip="@.is_prefix_of(#[trigger] lines[k]),
        forall|k: int| j < k < lines.len() ==> !"loc="@.is_prefix_of(#[trigger] lines[k]),
        lines.last().len() > 0,
        forall|k: int|
            0 <= k < lines.len() ==> !(#[trigger] lines[k]).contains('\n') && !lines[k].contains(
                '\r',
            ),
    ensures
        probe_info(joined(lines, seq!['\n'])) == Some(
            AddressInfo { ip: trimmed(ip), country_code: seq![ascii_upper(a), ascii_upper(b)] },
        ),
{
    let body = joined(lines, seq!['\n']);
    reveal_strlit("ip=");
    reveal_strlit("loc=");
    joined_lines_are_read_again(lines);
    assert(lines_of(body) == lines);
    assert(lines[i].subrange(0, 3) =~= "ip="@);
    assert(lines[j].subrange(0, 4) =~= "loc="@);
    assert(lines[i].skip(3) =~= ip);
    assert(lines[j].skip(4) =~= seq![a, b]);
    trace_gives_its_fields(body, i, j);
    lemma_letter_is_no_white_space(a);
    lemma_letter_is_no_white_space(b);
    lemma_trimmed_fixed(seq![a, b]);
    two_letters_are_a_country_code(seq![a, b]);
}

proof fn lemma_letter_is_no_white_space(c: char)
    ensures
        is_ascii_letter(c) ==> !is_white_space(c),
{
}

/// A JSON document gives an address just where the first text under `ip`, `ipAddress` or `query`
/// is one, whatever else it holds, and whether or not it tells a country. The country code is
/// that of the first text under the names for it.
pub proof fn json_address_needs_no_country(tree: JsonTree)
    ensures
        found_text(tree, seq!["ip"@, "ipAddress"@, "query"@]) matches Some(ip) && is_ip_address(ip)
            <==> json_info(tree) is Some,
        json_info(tree) matches Some(info) ==> Some(info.ip) == found_text(
            tree,
            seq!["ip"@, "ipAddress"@, "query"@],
        ),
        json_info(tree) matches Some(info) ==> info.country_code == code_in(
            found_text(
                tree,
                seq!["country_code"@, "countryCode"@, "cc"@, "iso_code"@, "country"@],
            ),
        ),
{
}

/// An object's own members come first for the address, and among them `ip` before `ipAddress`
/// before `query`.
pub proof fn own_address_is_taken(
    members: Seq<(Seq<char>, JsonTree)>,
    names: Seq<Seq<char>>,
    k: int,
    ip: Seq<char>,
)
    requires
        names == seq!["ip"@, "ipAddress"@, "query"@],
        0 <= k < 3,
        text_in(member(members, names[k])) == Some(ip),
        forall|j: int| 0 <= j < k ==> text_in(member(members, #[trigger] names[j])) is None,
        is_ip_address(ip),
    ensures
        json_info(JsonTree::Object(members)) matches Some(info) && info.ip == ip,
{
    earliest_name_counts(members, names, k);
}

/// An object's own members come first for the country, and among them `country_code` before
/// `countryCode`, `cc`, `iso_code` and `country`.
pub proof fn own_country_is_taken(
    members: Seq<(Seq<char>, JsonTree)>,
    names: Seq<Seq<char>>,
    k: int,
    a: char,
    b: char,
)
    requires
        names == seq!["country_code"@, "countryCode"@, "cc"@, "iso_code"@, "country"@],
        0 <= k < 5,
        text_in(member(members, names[k])) == Some(seq![a, b]),
        forall|j: int| 0 <= j < k ==> text_in(member(members, #[trigger] names[j])) is None,
        is_ascii_letter(a) && is_ascii_letter(b),
        json_info(JsonTree::Object(members)) is Some,
    ensures
        json_info(JsonTree::Object(members)) matches Some(info) && info.country_code == seq![
            ascii_upper(a),
            ascii_upper(b),
        ],
{
    earliest_name_counts(members, names, k);
    two_letters_are_a_country_code(seq![a, b]);
}

/// A reply yields an address just where its body holds one, whatever the address and its country
/// code are; every other reply fails, and says why.
pub proof fn reply_yields_what_its_body_holds(
    body: Seq<char>,
    info: AddressInfo,
    reason: Seq<char>,
)
    ensures
        reply_outcome(ReplyView::Body(body)) == Ok::<AddressInfo, Seq<char>>(info) <==> probe_info(
            body,
        ) == Some(info),
        probe_info(body) is None ==> reply_outcome(ReplyView::Body(body)) == Err::<
            AddressInfo,
            Seq<char>,
        >("响应中没有有效的 IP 与国家码"@),
        reply_outcome(ReplyView::RequestFailed(reason)) matches Err(error) && error
            == "请求失败: "@ + reason,
        reply_outcome(ReplyView::ReadFailed(reason)) matches Err(error) && error
            == "读取响应失败: "@ + reason,
{
}

/// Wherever a probe stands: an answer with an address ends it with that address; any other notes
/// why, keeps what was noted before, and leads to the next service if there is one.
pub proof fn probe_moves_on_only_on_failure(run: RunView, reply: ReplyView)
    ensures
        reply_outcome(reply) matches Ok(info) ==> fallback_step(run, reply) == StepView::Finished(
            Ok(info),
        ),
        reply_outcome(reply) matches Err(error) ==> (if run.rest.len() > 0 {
            fallback_step(run, reply) matches StepView::Request(next) && {
                &&& next.url == run.rest[0]
                &&& next.rest == run.rest.skip(1)
                &&& next.errors.len() == run.errors.len() + 1
                &&& next.errors.drop_last() == run.errors
                &&& next.errors.last() == run.url + ": "@ + error
            }
        } else {
            fallback_step(run, reply) matches StepView::Finished(Err(told)) && told
                == "所有出口 IP 接口均失败: "@ + joined(
                run.errors.push(run.url + ": "@ + error),
                " | "@,
            )
        }),
{
    if let Err(error) = reply_outcome(reply) {
        let errors = run.errors.push(run.url + ": "@ + error);
        assert(errors.drop_last() =~= run.errors);
    }
}

/// A probe starts with the first of its services and nothing noted.
pub proof fn probe_starts_with_the_first(urls: Seq<Seq<char>>)
    requires
        urls.len() > 0,
    ensures
        first_request(urls).url == urls[0],
        first_request(urls).errors.len() == 0,
        seq![first_request(urls).url] + first_request(urls).rest == urls,
{
}

/// Where every service fails, the error of the probe tells of each of them which it is and why it
/// failed.
pub proof fn error_tells_of_every_service(
    urls: Seq<Seq<char>>,
    replies: Seq<ReplyView>,
    i: int,
)
    requires
        0 <= i < replies.len(),
        replies.len() == urls.len(),
        all_fail(replies),
    ensures
        probe_after(StepView::Request(first_request(urls)), replies) matches StepView::Finished(
            Err(told),
        ) && (reply_outcome(replies[i]) matches Err(error) && contains_text(
            told,
            urls[i] + ": "@ + error,
        )),
{
    all_services_may_fail(urls, replies);
    let errors = failures(urls, replies);
    let told = all_failed(errors);
    let lead = "所有出口 IP 接口均失败: "@;
    assert(reply_outcome(replies[i]) is Err);
    let k = lemma_joined_holds(errors, " | "@, i);
    assert(told.subrange(lead.len() + k, lead.len() + k + errors[i].len()) =~= errors[i]) by {
        let list = joined(errors, " | "@);
        assert(list.subrange(k, k + errors[i].len()) == errors[i]);
        assert forall|m: int| 0 <= m < errors[i].len() implies told[lead.len() + k + m]
            == #[trigger] errors[i][m] by {
            assert(list.subrange(k, k + errors[i].len())[m] == errors[i][m]);
        }
    }
    assert(occurs_at(told, errors[i], lead.len() + k));
}

proof fn lemma_joined_holds(parts: Seq<Seq<char>>, separator: Seq<char>, i: int) -> (k: int)
    requires
        0 <= i < parts.len(),
    ensures
        0 <= k,
        k + parts[i].len() <= joined(parts, separator).len(),
        joined(parts, separator).subrange(k, k + parts[i].len()) == parts[i],
    decreases parts.len(),
{
    let whole = joined(parts, separator);
    if parts.len() == 1 {
        assert(whole.subrange(0, whole.len() as int) =~= whole);
        0
    } else if i == parts.len() - 1 {
        let k = whole.len() - parts[i].len();
        assert(whole.subrange(k, whole.len() as int) =~= parts[i]);
        k
    } else {
        let init = parts.drop_last();
        let head = joined(init, separator);
        assert(init[i] == parts[i]);
        let k = lemma_joined_holds(init, separator, i);
        assert(whole.subrange(k, k + parts[i].len()) =~= head.subrange(k, k + parts[i].len()));
        k
    }
}

/// Apart from a preferred service, which comes first, the built-in services are asked in the order
/// of their list.
pub proof fn built_in_services_keep_their_order(preferred: Option<Seq<char>>, i: int, j: int)
    requires
        0 < i < j < candidates(preferred).len(),
    ensures
        exists|a: int, b: int|
            0 <= a < b < default_urls().len() && candidates(preferred)[i] == default_urls()[a]
                && candidates(preferred)[j] == default_urls()[b],
{
    let all = candidates(preferred);
    match preferred {
        Some(url) if trimmed(url).len() > 0 => {
            let rest = others(default_urls(), trimmed(url));
            assert(all[i] == rest[i - 1] && all[j] == rest[j - 1]);
            let (a, b) = lemma_others_keep_order(default_urls(), trimmed(url), i - 1, j - 1);
            assert(all[i] == default_urls()[a] && all[j] == default_urls()[b]);
        },
        _ => {
            assert(all[i] == default_urls()[i] && all[j] == default_urls()[j]);
        },
    }
}

proof fn lemma_others_keep_order(
    urls: Seq<Seq<char>>,
    url: Seq<char>,
    i: int,
    j: int,
) -> (places: (int, int))
    requires
        0 <= i < j < others(urls, url).len(),
    ensures
        0 <= places.0 < places.1 < urls.len(),
        others(urls, url)[i] == urls[places.0],
        others(urls, url)[j] == urls[places.1],
    decreases urls.len(),
{
    reveal(Seq::filter);
    let init = urls.drop_last();
    let kept = others(init, url);
    if j < kept.len() {
        let (a, b) = lemma_others_keep_order(init, url, i, j);
        assert(init[a] == urls[a] && init[b] == urls[b]);
        (a, b)
    } else {
        let a = lemma_other_place(init, url, i);
        assert(init[a] == urls[a]);
        (a, urls.len() - 1)
    }
}

proof fn lemma_other_place(urls: Seq<Seq<char>>, url: Seq<char>, i: int) -> (a: int)
    requires
        0 <= i < others(urls, url).len(),
    ensures
        0 <= a < urls.len(),
        others(urls, url)[i] == urls[a],
    decreases urls.len(),
{
    reveal(Seq::filter);
    let init = urls.drop_last();
    if i < others(init, url).len() {
        let a = lemma_other_place(init, url, i);
        assert(init[a] == urls[a]);
        a
    } else {
        urls.len() - 1
    }
}

/// Contracts speak of addresses, replies, results and steps as they are.
pub proof fn values_stand_for_their_fields(
    info: IpInfo,
    text: String,
    run: FallbackRun,
    result: Result<IpInfo, String>,
)
    ensures
        info@.ip == info.ip@,
        info@.country_code == info.country_code@,
        info_of(Some(info)) == Some(info@),
        info_of(None) is None,
        ProbeReply::Body(text)@ == ReplyView::Body(text@),
        ProbeReply::RequestFailed(text)@ == ReplyView::RequestFailed(text@),
        ProbeReply::ReadFailed(text)@ == ReplyView::ReadFailed(text@),
        outcome_of(Ok(info)) == Ok::<AddressInfo, Seq<char>>(info@),
        outcome_of(Err(text)) == Err::<AddressInfo, Seq<char>>(text@),
        FallbackStep::Request(run)@ == StepView::Request(run@),
        FallbackStep::Finished(result)@ == StepView::Finished(outcome_of(result)),
{
}

} // verus!
