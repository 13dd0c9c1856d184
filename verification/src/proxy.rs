//! Which proxy a probe goes through: a manual override, else the system proxy, else none.
//!
//! Without a system proxy the probe goes out directly; a tunnel that takes over all traffic is
//! measured that way.
use crate::text::{
    chars_of, concat, eq_ignore_ascii_case, find, position, split, string_of, trim,
};
#[allow(unused_imports)]
use crate::text::{
    ascii_lower, case_is_set_aside, contains_text, first_index, is_blank, is_white_space, joined,
    joined_parts_are_cut_again, lemma_first_index, lemma_first_index_after, lemma_first_occurrence,
    lemma_trimmed, lemma_trimmed_fixed, occurs_at, pieces, same_but_for_case, str_of, text_of,
    trimmed, trimming_cuts_off_white_space, trimming_is_idempotent,
    trimming_keeps_what_stands_between, views,
};
use vstd::prelude::*;
use vstd::slice::slice_subrange;

verus! {

/// Where a proxy choice comes from.
#[derive(Debug, Clone, Copy, PartialEq, Eq, Structural)]
pub enum ProxySource {
    /// Set by hand in the configuration.
    Manual,
    /// Read from the system settings.
    System,
    /// No proxy: a direct connection.
    Direct,
}

/// A proxy choice as the contracts speak of it.
pub struct ProxyChoice {
    pub url: Option<Seq<char>>,
    pub source: ProxySource,
}

/// The proxy that probes go through. Without a URL the connection is direct.
#[derive(Debug, Clone)]
pub struct EffectiveProxy {
    url: Option<String>,
    source: ProxySource,
}

impl View for EffectiveProxy {
    type V = ProxyChoice;

    closed spec fn view(&self) -> ProxyChoice {
        ProxyChoice { url: text_of(self.url), source: self.source }
    }
}

/// A proxy address with its scheme: `http` where it names none.
pub open spec fn normalized(addr: Seq<char>) -> Seq<char> {
    let bare = trimmed(addr);
    if contains_text(bare, "://"@) {
        bare
    } else {
        "http://"@ + bare
    }
}

/// An entry `protocol=address` of a per-protocol setting, where its address is not blank.
pub open spec fn server_entry(part: Seq<char>) -> Option<(Seq<char>, Seq<char>)> {
    let part = trimmed(part);
    let i = first_index(part, '=');
    if i < part.len() && trimmed(part.skip(i + 1)).len() > 0 {
        Some((part.take(i), trimmed(part.skip(i + 1))))
    } else {
        None
    }
}

/// `http` or `https`, in any letter case.
pub open spec fn is_web_protocol(protocol: Seq<char>) -> bool {
    same_but_for_case(protocol, "http"@) || same_but_for_case(protocol, "https"@)
}

/// The address of the first entry that has one.
pub open spec fn first_address(parts: Seq<Seq<char>>) -> Option<Seq<char>>
    decreases parts.len(),
{
    if parts.len() == 0 {
        None
    } else {
        match (first_address(parts.drop_last()), server_entry(parts.last())) {
            (Some(addr), _) => Some(addr),
            (None, Some(entry)) => Some(entry.1),
            (None, None) => None,
        }
    }
}

/// The address of an entry for `http` or `https`.
pub open spec fn web_address(part: Seq<char>) -> Option<Seq<char>> {
    match server_entry(part) {
        Some(entry) if is_web_protocol(entry.0) => Some(entry.1),
        _ => None,
    }
}

/// The address of the last entry for `http` or `https` that has one.
pub open spec fn last_web_address(parts: Seq<Seq<char>>) -> Option<Seq<char>>
    decreases parts.len(),
{
    if parts.len() == 0 {
        None
    } else {
        match web_address(parts.last()) {
            Some(addr) => Some(addr),
            None => last_web_address(parts.drop_last()),
        }
    }
}

/// The address that a system proxy setting names, before its scheme is filled in: one for all
/// protocols, or of a list by protocol the one for the web, or else the first.
pub open spec fn server_address(raw: Seq<char>) -> Option<Seq<char>> {
    let raw = trimmed(raw);
    if raw.len() == 0 {
        None
    } else if raw.contains('=') {
        match last_web_address(pieces(raw, ';')) {
            Some(addr) => Some(addr),
            None => first_address(pieces(raw, ';')),
        }
    } else {
        Some(raw)
    }
}

/// The proxy URL that a system proxy setting stands for.
pub open spec fn server_url(raw: Seq<char>) -> Option<Seq<char>> {
    match server_address(raw) {
        Some(addr) => Some(normalized(addr)),
        None => None,
    }
}

/// The system proxy: none unless it is switched on and names a server.
pub open spec fn system_proxy_url(enable: Option<u32>, server: Option<Seq<char>>) -> Option<
    Seq<char>,
> {
    match (enable, server) {
        (Some(enable), Some(server)) if enable != 0 => server_url(server),
        _ => None,
    }
}

/// The override that is in force: one that is not blank.
pub open spec fn override_url(manual: Option<Seq<char>>) -> Option<Seq<char>> {
    match manual {
        Some(raw) if !is_blank(raw) => Some(normalized(raw)),
        _ => None,
    }
}

/// The choice between an override, the system proxy and a direct connection, in this order.
pub open spec fn proxy_choice(manual: Option<Seq<char>>, system: Option<Seq<char>>) -> ProxyChoice {
    match (override_url(manual), system) {
        (Some(url), _) => ProxyChoice { url: Some(url), source: ProxySource::Manual },
        (None, Some(url)) => ProxyChoice { url: Some(url), source: ProxySource::System },
        (None, None) => ProxyChoice { url: None, source: ProxySource::Direct },
    }
}

impl EffectiveProxy {
    /// The proxy URL, such as `http://127.0.0.1:7897`; none for a direct connection.
    pub fn url(&self) -> (url: Option<String>)
        ensures
            text_of(url) == self@.url,
    {
        match &self.url {
            Some(url) => Some(url.clone()),
            None => None,
        }
    }

    /// Where the choice comes from.
    pub fn source(&self) -> (source: ProxySource)
        ensures
            source == self@.source,
    {
        self.source
    }
}

/// Chooses the proxy: the manual override unless it is blank, else the system proxy, else none.
pub fn resolve_effective_proxy(
    manual_override: Option<&str>,
    system_proxy: Option<String>,
) -> (proxy: EffectiveProxy)
    ensures
        proxy@ == proxy_choice(str_of(manual_override), text_of(system_proxy)),
{
    if let Some(raw) = manual_override {
        let chars = chars_of(raw);
        proof {
            lemma_trimmed(raw@);
        }
        if trim(chars.as_slice()).len() > 0 {
            return EffectiveProxy {
                url: Some(normalize_proxy_url(raw)),
                source: ProxySource::Manual,
            };
        }
    }
    match system_proxy {
        Some(url) => EffectiveProxy { url: Some(url), source: ProxySource::System },
        None => EffectiveProxy { url: None, source: ProxySource::Direct },
    }
}

/// The proxy that the system settings ask for. `enable` and `server` are what stands there; a
/// value that is missing, or an `enable` of 0, means no proxy.
pub fn read_system_proxy(enable: Option<u32>, server: Option<&str>) -> (url: Option<String>)
    ensures
        text_of(url) == system_proxy_url(enable, str_of(server)),
{
    match (enable, server) {
        (Some(enable), Some(server)) => {
            if enable == 0 {
                None
            } else {
                parse_proxy_server(server)
            }
        },
        _ => None,
    }
}

/// The proxy URL that a proxy server setting stands for. The setting is one address for all
/// protocols (`127.0.0.1:7897`) or a list by protocol (`http=127.0.0.1:7897;socks=...`).
pub fn parse_proxy_server(raw: &str) -> (url: Option<String>)
    ensures
        text_of(url) == server_url(raw@),
{
    let chars = chars_of(raw);
    let raw = trim(chars.as_slice());
    if raw.len() == 0 {
        return None;
    }
    let address = if has_char(raw, '=') {
        web_or_first_address(raw)
    } else {
        Some(raw)
    };
    match address {
        Some(address) => {
            let address = string_of(address);
            Some(normalize_proxy_url(address.as_str()))
        },
        None => None,
    }
}

/// Whether `c` occurs in a text.
fn has_char(s: &[char], c: char) -> (b: bool)
    ensures
        b == s@.contains(c),
{
    let i: usize = position(s, c);
    proof {
        lemma_first_index(s@, c);
        assert(i < s@.len() ==> s@[i as int] == c);
    }
    i < s.len()
}

/// Of a list by protocol, the last address for the web, else the first address.
fn web_or_first_address<'a>(raw: &'a [char]) -> (address: Option<&'a [char]>)
    ensures
        slice_of(address) == (match last_web_address(pieces(raw@, ';')) {
            Some(addr) => Some(addr),
            None => first_address(pieces(raw@, ';')),
        }),
{
    let http = chars_of("http");
    let https = chars_of("https");
    let parts = split(raw, ';');
    let ghost all = views(parts@);
    let mut web: Option<&'a [char]> = None;
    let mut first: Option<&'a [char]> = None;
    let mut i: usize = 0;
    assert(all.take(0) == Seq::<Seq<char>>::empty());
    while i < parts.len()
        invariant
            http@ == "http"@,
            https@ == "https"@,
            all == views(parts@),
            i <= parts.len(),
            slice_of(web) == last_web_address(all.take(i as int)),
            slice_of(first) == first_address(all.take(i as int)),
        decreases parts.len() - i,
    {
        assert(all.take(i + 1).drop_last() == all.take(i as int));
        assert(all.take(i + 1).last() == parts@[i as int]@);
        let part = trim(parts[i]);
        let cut: usize = position(part, '=');
        if cut < part.len() {
            let protocol = slice_subrange(part, 0, cut);
            let address = trim(slice_subrange(part, cut + 1, part.len()));
            assert(part@.subrange(cut + 1, part@.len() as int) == part@.skip(cut + 1));
            if address.len() > 0 {
                if first.is_none() {
                    first = Some(address);
                }
                if eq_ignore_ascii_case(protocol, http.as_slice()) || eq_ignore_ascii_case(
                    protocol,
                    https.as_slice(),
                ) {
                    web = Some(address);
                }
            }
        }
        i += 1;
    }
    assert(all.take(i as int) == all);
    match web {
        Some(address) => Some(address),
        None => first,
    }
}

/// The text in an optional slice of characters.
spec fn slice_of(s: Option<&[char]>) -> Option<Seq<char>> {
    match s {
        Some(s) => Some(s@),
        None => None,
    }
}

/// Fills in the scheme of a proxy address: `http` where it names none.
pub fn normalize_proxy_url(addr: &str) -> (url: String)
    ensures
        url@ == normalized(addr@),
{
    let chars = chars_of(addr);
    let bare = trim(chars.as_slice());
    let mark = chars_of("://");
    let text = string_of(bare);
    proof {
        lemma_first_occurrence(bare@, mark@);
    }
    if find(bare, mark.as_slice()).is_some() {
        text
    } else {
        concat("http://", text.as_str())
    }
}

/// A normalized address names its scheme, has no white space at its ends, and stays as it is when
/// it is normalized again.
pub proof fn normalized_address_is_stable(addr: Seq<char>)
    ensures
        contains_text(normalized(addr), "://"@),
        trimmed(normalized(addr)) == normalized(addr),
        normalized(normalized(addr)) == normalized(addr),
{
    reveal_strlit("://");
    reveal_strlit("http://");
    let bare = trimmed(addr);
    let url = normalized(addr);
    lemma_trimmed(addr);
    if !contains_text(bare, "://"@) {
        assert(url.subrange(4, 7) =~= "://"@);
        assert(occurs_at(url, "://"@, 4));
        assert(url.first() == 'h');
        if bare.len() == 0 {
            assert(url.last() == '/');
        } else {
            assert(url.last() == bare.last());
        }
    }
    lemma_trimmed_fixed(url);
}

/// An address that names a scheme is taken as it stands between its white space; any other is put
/// behind `http://`, and nothing of it is lost.
pub proof fn scheme_is_filled_in(addr: Seq<char>)
    ensures
        (exists|i: int|
            0 <= i <= trimmed(addr).len() - 3 && #[trigger] trimmed(addr).subrange(i, i + 3)
                == "://"@) ==> normalized(addr) == trimmed(addr),
        (forall|i: int|
            0 <= i <= trimmed(addr).len() - 3 ==> #[trigger] trimmed(addr).subrange(i, i + 3)
                != "://"@) ==> normalized(addr) == "http://"@ + trimmed(addr),
{
    let bare = trimmed(addr);
    reveal_strlit("://");
    assert("://"@.len() == 3);
    if exists|i: int| 0 <= i <= bare.len() - 3 && #[trigger] bare.subrange(i, i + 3) == "://"@ {
        let i = choose|i: int|
            0 <= i <= bare.len() - 3 && #[trigger] bare.subrange(i, i + 3) == "://"@;
        assert(occurs_at(bare, "://"@, i));
    }
    if contains_text(bare, "://"@) {
        let i = choose|i: int| occurs_at(bare, "://"@, i);
        assert(bare.subrange(i, i + 3) == "://"@);
    }
}

/// An override that is not blank is in force whatever the system says; a blank one is none.
pub proof fn override_comes_first(raw: Seq<char>, system: Option<Seq<char>>)
    ensures
        !is_blank(raw) ==> proxy_choice(Some(raw), system) == (ProxyChoice {
            url: Some(normalized(raw)),
            source: ProxySource::Manual,
        }),
        is_blank(raw) ==> proxy_choice(Some(raw), system) == proxy_choice(None, system),
{
}

/// The connection is direct just where there is no proxy URL, which is just where neither an
/// override nor the system names a proxy.
pub proof fn direct_means_no_proxy(manual: Option<Seq<char>>, system: Option<Seq<char>>)
    ensures
        proxy_choice(manual, system).source == ProxySource::Direct <==> proxy_choice(
            manual,
            system,
        ).url is None,
        proxy_choice(manual, system).url is None <==> override_url(manual) is None && system is None,
{
}

/// Without an override that is in force, the proxy of the system is used as it is; without that
/// one the connection is direct.
pub proof fn system_comes_second(blank: Seq<char>, url: Seq<char>)
    requires
        forall|i: int| 0 <= i < blank.len() ==> is_white_space(#[trigger] blank[i]),
    ensures
        proxy_choice(None, Some(url)) == (ProxyChoice {
            url: Some(url),
            source: ProxySource::System,
        }),
        proxy_choice(Some(blank), Some(url)) == (ProxyChoice {
            url: Some(url),
            source: ProxySource::System,
        }),
        proxy_choice(None, None) == (ProxyChoice { url: None, source: ProxySource::Direct }),
        proxy_choice(Some(blank), None) == (ProxyChoice { url: None, source: ProxySource::Direct }),
{
}

/// A system proxy that is switched on is the one that its server setting names, by whatever number
/// it is switched on and whatever the setting holds; one that is switched off, or of which a value
/// is missing, is none.
pub proof fn switched_on_proxy_is_the_one_named(enable: u32, server: Seq<char>)
    ensures
        enable != 0 ==> system_proxy_url(Some(enable), Some(server)) == server_url(server),
        system_proxy_url(Some(0), Some(server)) is None,
        system_proxy_url(None, Some(server)) is None,
        system_proxy_url(Some(enable), None) is None,
        system_proxy_url(None, None) is None,
{
}

/// A system proxy that is switched on and is one address for all protocols is used at that
/// address, whatever the address is: as it stands where it names a scheme, else over HTTP.
pub proof fn one_system_address_is_used(
    enable: u32,
    left: Seq<char>,
    addr: Seq<char>,
    right: Seq<char>,
)
    requires
        enable != 0,
        is_blank(left),
        is_blank(right),
        addr.len() > 0,
        !is_white_space(addr.first()),
        !is_white_space(addr.last()),
        !addr.contains('='),
    ensures
        contains_text(addr, "://"@) ==> proxy_choice(
            None,
            system_proxy_url(Some(enable), Some(left + addr + right)),
        ) == (ProxyChoice { url: Some(addr), source: ProxySource::System }),
        !contains_text(addr, "://"@) ==> proxy_choice(
            None,
            system_proxy_url(Some(enable), Some(left + addr + right)),
        ) == (ProxyChoice { url: Some("http://"@ + addr), source: ProxySource::System }),
{
    trimming_keeps_what_stands_between(left, addr, right);
    lemma_trimmed_fixed(addr);
}

/// An entry is cut at its first equals sign: what stands before it is the protocol, what stands
/// after it, without white space at its ends, is the address. An entry without an equals sign, or
/// with nothing but white space after it, has no address.
pub proof fn entry_is_cut_at_its_equals_sign(protocol: Seq<char>, addr: Seq<char>)
    requires
        !protocol.contains('='),
        protocol.len() > 0 ==> !is_white_space(protocol.first()),
    ensures
        !is_blank(addr) ==> server_entry(protocol + seq!['='] + addr) == Some(
            (protocol, trimmed(addr)),
        ),
        is_blank(addr) ==> server_entry(protocol + seq!['='] + addr) is None,
        server_entry(protocol) is None,
{
    let part = protocol + seq!['='] + addr;
    let n = protocol.len() as int;
    let (i, j) = trimming_cuts_off_white_space(addr);
    lemma_trimmed(addr);
    let kept = if is_blank(addr) {
        protocol.push('=')
    } else {
        protocol + seq!['='] + addr.take(j)
    };
    let lost = part.skip(kept.len() as int);
    if is_blank(addr) {
        assert(part =~= Seq::<char>::empty() + kept + lost);
        assert forall|k: int| 0 <= k < lost.len() implies is_white_space(#[trigger] lost[k]) by {
            assert(lost[k] == addr[k]);
        }
    } else {
        assert(part =~= Seq::<char>::empty() + kept + lost);
        assert(i < j);
        assert(kept.last() == trimmed(addr).last());
        assert forall|k: int| 0 <= k < lost.len() implies is_white_space(#[trigger] lost[k]) by {
            assert(lost[k] == addr[j + k]);
        }
    }
    assert(kept.first() == part.first());
    assert(!is_white_space(kept.last()));
    trimming_keeps_what_stands_between(Seq::empty(), kept, lost);
    assert(trimmed(part) == kept);
    let tail = kept.skip(n + 1);
    assert(kept =~= protocol + seq!['='] + tail);
    lemma_first_index_after(protocol, '=', tail);
    assert(kept.take(n) =~= protocol);
    if !is_blank(addr) {
        assert(tail =~= addr.take(j));
        assert(tail =~= addr.take(i) + trimmed(addr) + Seq::<char>::empty());
        trimming_keeps_what_stands_between(addr.take(i), trimmed(addr), Seq::empty());
    } else {
        assert(tail.len() == 0);
        lemma_trimmed(tail);
    }
    let bare = trimmed(protocol);
    let (a, b) = trimming_cuts_off_white_space(protocol);
    lemma_first_index(bare, '=');
    if first_index(bare, '=') < bare.len() {
        assert(protocol[a + first_index(bare, '=')] == '=');
        assert(protocol.contains('='));
    }
}

/// White space around an entry does not matter.
pub proof fn entry_is_trimmed(part: Seq<char>)
    ensures
        server_entry(part) == server_entry(trimmed(part)),
{
    trimming_is_idempotent(part);
}

/// `http` and `https` are the protocols of the web, in whatever letter case, and no others are.
pub proof fn web_protocols_are_http_and_https(protocol: Seq<char>)
    ensures
        is_web_protocol(protocol) <==> {
            let small = protocol.map_values(|c: char| ascii_lower(c));
            small == "http"@ || small == "https"@
        },
{
    reveal_strlit("http");
    reveal_strlit("https");
    let small = protocol.map_values(|c: char| ascii_lower(c));
    assert("http"@.map_values(|c: char| ascii_lower(c)) =~= "http"@);
    assert("https"@.map_values(|c: char| ascii_lower(c)) =~= "https"@);
    case_is_set_aside(protocol, "http"@);
    case_is_set_aside(protocol, "https"@);
}

/// A list by protocol, however many entries it has: the last entry for the web that has an address
/// is used; where there is none, the first entry that has an address is.
pub proof fn list_by_protocol_is_searched(
    left: Seq<char>,
    parts: Seq<Seq<char>>,
    right: Seq<char>,
    enable: u32,
    i: int,
)
    requires
        enable != 0,
        is_blank(left),
        is_blank(right),
        0 <= i < parts.len(),
        forall|k: int| 0 <= k < parts.len() ==> !(#[trigger] parts[k]).contains(';'),
        trimmed(joined(parts, seq![';'])) == joined(parts, seq![';']),
        server_entry(parts[i]) is Some,
    ensures
        is_web_protocol(server_entry(parts[i])->Some_0.0) && (forall|k: int|
            i < k < parts.len() && server_entry(#[trigger] parts[k]) is Some ==> !is_web_protocol(
                server_entry(parts[k])->Some_0.0,
            )) ==> system_proxy_url(Some(enable), Some(left + joined(parts, seq![';']) + right)) == Some(
            normalized(server_entry(parts[i])->Some_0.1),
        ),
        (forall|k: int|
            0 <= k < parts.len() && server_entry(#[trigger] parts[k]) is Some ==> !is_web_protocol(
                server_entry(parts[k])->Some_0.0,
            )) && (forall|k: int|
            0 <= k < i ==> server_entry(#[trigger] parts[k]) is None) ==> system_proxy_url(
            Some(enable),
            Some(left + joined(parts, seq![';']) + right),
        ) == Some(normalized(server_entry(parts[i])->Some_0.1)),
{
    let raw = joined(parts, seq![';']);
    joined_parts_are_cut_again(parts, ';');
    lemma_entry_in_text(parts, i);
    assert(raw.contains('='));
    lemma_trimmed(raw);
    trimming_keeps_what_stands_between(left, raw, right);
    if is_web_protocol(server_entry(parts[i])->Some_0.0) && (forall|k: int|
        i < k < parts.len() && server_entry(#[trigger] parts[k]) is Some ==> !is_web_protocol(
            server_entry(parts[k])->Some_0.0,
        )) {
        assert forall|k: int| i < k < parts.len() implies web_address(#[trigger] parts[k]) is None by {
            assert(server_entry(parts[k]) is Some ==> !is_web_protocol(
                server_entry(parts[k])->Some_0.0,
            ));
        }
        lemma_last_web_address(parts, i);
    }
    if (forall|k: int|
        0 <= k < parts.len() && server_entry(#[trigger] parts[k]) is Some ==> !is_web_protocol(
            server_entry(parts[k])->Some_0.0,
        )) && (forall|k: int| 0 <= k < i ==> server_entry(#[trigger] parts[k]) is None) {
        lemma_no_web_address(parts);
        lemma_first_address(parts, i);
    }
}

/// An entry with an address brings its equals sign into the list.
proof fn lemma_entry_in_text(parts: Seq<Seq<char>>, i: int)
    requires
        0 <= i < parts.len(),
        server_entry(parts[i]) is Some,
    ensures
        joined(parts, seq![';']).contains('='),
        joined(parts, seq![';']).len() > 0,
    decreases parts.len(),
{
    let whole = joined(parts, seq![';']);
    if i == parts.len() - 1 {
        let part = parts[i];
        let (a, b) = trimming_cuts_off_white_space(part);
        let k = first_index(trimmed(part), '=');
        lemma_first_index(trimmed(part), '=');
        assert(part[a + k] == '=');
        let before = whole.len() - part.len();
        assert(whole[before + a + k] == part[a + k]);
    } else {
        let init = parts.drop_last();
        assert(init[i] == parts[i]);
        lemma_entry_in_text(init, i);
        let before = joined(init, seq![';']);
        let k = choose|k: int| 0 <= k < before.len() && before[k] == '=';
        assert(whole[k] == '=');
    }
}

proof fn lemma_no_web_address(parts: Seq<Seq<char>>)
    requires
        forall|k: int|
            0 <= k < parts.len() && server_entry(#[trigger] parts[k]) is Some ==> !is_web_protocol(
                server_entry(parts[k])->Some_0.0,
            ),
    ensures
        last_web_address(parts) is None,
    decreases parts.len(),
{
    if parts.len() > 0 {
        let init = parts.drop_last();
        assert(parts.last() == parts[parts.len() - 1]);
        assert forall|k: int|
            0 <= k < init.len() && server_entry(#[trigger] init[k]) is Some implies !is_web_protocol(
            server_entry(init[k])->Some_0.0,
        ) by {
            assert(init[k] == parts[k]);
        }
        lemma_no_web_address(init);
    }
}

proof fn lemma_first_address(parts: Seq<Seq<char>>, i: int)
    requires
        0 <= i < parts.len(),
        server_entry(parts[i]) is Some,
        forall|k: int| 0 <= k < i ==> server_entry(#[trigger] parts[k]) is None,
    ensures
        first_address(parts) == Some(server_entry(parts[i])->Some_0.1),
    decreases parts.len(),
{
    let init = parts.drop_last();
    if i < init.len() {
        assert(init[i] == parts[i]);
        assert forall|k: int| 0 <= k < i implies server_entry(#[trigger] init[k]) is None by {
            assert(init[k] == parts[k]);
        }
        lemma_first_address(init, i);
    } else {
        lemma_addresses(init);
        assert forall|k: int| 0 <= k < init.len() implies server_entry(#[trigger] init[k]) is None by {
            assert(init[k] == parts[k]);
        }
    }
}

/// Every proxy URL that is chosen names its scheme, where the system's comes from its settings.
pub proof fn chosen_url_has_a_scheme(
    manual: Option<Seq<char>>,
    enable: Option<u32>,
    server: Option<Seq<char>>,
)
    ensures
        proxy_choice(manual, system_proxy_url(enable, server)).url matches Some(url)
            ==> contains_text(url, "://"@),
{
    if let Some(raw) = manual {
        normalized_address_is_stable(raw);
    }
    if let Some(server) = server {
        if let Some(addr) = server_address(server) {
            normalized_address_is_stable(addr);
        }
    }
}

/// A setting names no proxy just where it is blank, or is a list by protocol in which no entry
/// has an address.
pub proof fn setting_without_address(raw: Seq<char>)
    ensures
        server_url(raw) is None <==> is_blank(raw) || (trimmed(raw).contains('=') && forall|i: int|
            0 <= i < pieces(trimmed(raw), ';').len() ==> server_entry(
                #[trigger] pieces(trimmed(raw), ';')[i],
            ) is None),
{
    lemma_trimmed(raw);
    lemma_addresses(pieces(trimmed(raw), ';'));
}

proof fn lemma_addresses(parts: Seq<Seq<char>>)
    ensures
        first_address(parts) is None <==> forall|i: int|
            0 <= i < parts.len() ==> server_entry(#[trigger] parts[i]) is None,
        last_web_address(parts) is Some ==> first_address(parts) is Some,
    decreases parts.len(),
{
    if parts.len() > 0 {
        let init = parts.drop_last();
        lemma_addresses(init);
        assert forall|i: int| 0 <= i < init.len() implies init[i] == #[trigger] parts[i] by {}
        if first_address(parts) is None {
            assert forall|i: int| 0 <= i < parts.len() implies server_entry(
                #[trigger] parts[i],
            ) is None by {
                if i < init.len() {
                    assert(init[i] == parts[i]);
                }
            }
        } else if server_entry(parts.last()) is None {
            let i = choose|i: int| 0 <= i < init.len() && server_entry(#[trigger] init[i]) is Some;
            assert(server_entry(parts[i]) is Some);
        } else {
            assert(server_entry(parts[parts.len() - 1]) is Some);
        }
    }
}

/// Of a list by protocol, an entry for the web comes before all others; of several, the last.
pub proof fn web_entry_is_preferred(raw: Seq<char>, i: int)
    requires
        trimmed(raw).contains('='),
        0 <= i < pieces(trimmed(raw), ';').len(),
        web_address(pieces(trimmed(raw), ';')[i]) is Some,
        forall|j: int|
            i < j < pieces(trimmed(raw), ';').len() ==> web_address(
                #[trigger] pieces(trimmed(raw), ';')[j],
            ) is None,
    ensures
        server_address(raw) == web_address(pieces(trimmed(raw), ';')[i]),
{
    lemma_last_web_address(pieces(trimmed(raw), ';'), i);
}

proof fn lemma_last_web_address(parts: Seq<Seq<char>>, i: int)
    requires
        0 <= i < parts.len(),
        web_address(parts[i]) is Some,
        forall|j: int| i < j < parts.len() ==> web_address(#[trigger] parts[j]) is None,
    ensures
        last_web_address(parts) == web_address(parts[i]),
    decreases parts.len(),
{
    let init = parts.drop_last();
    assert(parts.last() == parts[parts.len() - 1]);
    if i < init.len() {
        assert forall|j: int| i < j < init.len() implies web_address(#[trigger] init[j]) is None by {
            assert(init[j] == parts[j]);
        }
        assert(init[i] == parts[i]);
        lemma_last_web_address(init, i);
    }
}

/// A setting that is one address for all protocols stands for that address.
pub proof fn one_address_for_all(raw: Seq<char>)
    requires
        !is_blank(raw),
        !trimmed(raw).contains('='),
    ensures
        server_url(raw) == Some(normalized(raw)),
{
    lemma_trimmed(raw);
    lemma_trimmed_fixed(trimmed(raw));
}

} // verus!
