//! What the server is told at its start, and what it makes of that.
use vstd::prelude::*;

use crate::net::{
    dotted, ip_text, ip_text_of, law_dotted_is_read_back, lemma_dotted_lacks, parse_ip,
    parse_socket, parsed_ip, parsed_socket, socket_text, socket_text_of, two_colons, IpAddress,
    SocketAddress,
};
use crate::text::{
    chars_of, decimal, decimal_text, find, first_index, is_digit, is_sorted_set, is_space,
    last_index, lemma_decimal, lemma_first_index, lemma_last_index, lemma_port_round_trip,
    parse_port, port_value, precedes, rsplit_once, rsplit_once_at, skip_chars, sort_and_dedup, split,
    split_at, split_once, split_once_at, starts_with, strip_trailing, trim, trim_end_matches,
    trim_start, trimmed,
};

verus! {

/// The port of name servers.
pub const DEFAULT_DNS_PORT: u16 = 53;

/// Why the server does not start.
#[derive(Debug)]
pub enum ConfigError {
    /// An option, or a combination of options, is missing or wrong.
    Option(&'static str),
    /// No peer of the mesh: it should read `ID=HOST:PORT`.
    MeshPeer(String),
    /// No address and port to listen on.
    Listen(String),
    /// No URL under which clients reach the server.
    ControlUrl(String),
    /// No address and port for the name server to listen on.
    DnsListen(String),
    /// No name server.
    DnsServer(String),
}

/// What [`ConfigError`] holds.
#[verifier::ext_equal]
pub enum ConfigErrorView {
    Option(Seq<char>),
    MeshPeer(Seq<char>),
    Listen(Seq<char>),
    ControlUrl(Seq<char>),
    DnsListen(Seq<char>),
    DnsServer(Seq<char>),
}

impl DeepView for ConfigError {
    type V = ConfigErrorView;

    open spec fn deep_view(&self) -> ConfigErrorView {
        match self {
            ConfigError::Option(what) => ConfigErrorView::Option(what@),
            ConfigError::MeshPeer(value) => ConfigErrorView::MeshPeer(value@),
            ConfigError::Listen(value) => ConfigErrorView::Listen(value@),
            ConfigError::ControlUrl(value) => ConfigErrorView::ControlUrl(value@),
            ConfigError::DnsListen(value) => ConfigErrorView::DnsListen(value@),
            ConfigError::DnsServer(value) => ConfigErrorView::DnsServer(value@),
        }
    }
}

impl ConfigErrorView {
    /// The error in words.
    pub open spec fn in_words(self) -> Seq<char> {
        match self {
            ConfigErrorView::Option(what) => what,
            ConfigErrorView::MeshPeer(value) => "invalid --mesh-peer value "@ + value
                + "; expected ID=HOST:PORT"@,
            ConfigErrorView::Listen(_) => "invalid socket address syntax"@,
            ConfigErrorView::ControlUrl(value) => "invalid --control-url value "@ + value
                + "; expected http:// or https:// URL"@,
            ConfigErrorView::DnsListen(value) => "invalid --dns-listen value "@ + value,
            ConfigErrorView::DnsServer(value) => "invalid dns server value "@ + value
                + "; expected HOST[:PORT] (IPv6 with port must use [addr]:port)"@,
        }
    }
}

impl ConfigError {
    /// The error in words.
    pub fn text(&self) -> (r: String)
        ensures
            r@ == self.deep_view().in_words(),
    {
        let (before, value, after): (&str, &str, &str) = match self {
            ConfigError::Option(what) => {
                return (*what).to_owned();
            },
            ConfigError::Listen(_) => {
                return "invalid socket address syntax".to_owned();
            },
            ConfigError::DnsListen(value) => {
                let mut out: String = "invalid --dns-listen value ".to_owned();
                out.append(value.as_str());
                return out;
            },
            ConfigError::MeshPeer(value) => (
                "invalid --mesh-peer value ",
                value.as_str(),
                "; expected ID=HOST:PORT",
            ),
            ConfigError::ControlUrl(value) => (
                "invalid --control-url value ",
                value.as_str(),
                "; expected http:// or https:// URL",
            ),
            ConfigError::DnsServer(value) => (
                "invalid dns server value ",
                value.as_str(),
                "; expected HOST[:PORT] (IPv6 with port must use [addr]:port)",
            ),
        };
        let mut out: String = before.to_owned();
        out.append(value);
        out.append(after);
        out
    }
}

/// A result, seen through what its value or its error holds.
pub open spec fn config_outcome<T: DeepView>(r: Result<T, ConfigError>) -> Result<
    T::V,
    ConfigErrorView,
> {
    match r {
        Ok(value) => Ok(value.deep_view()),
        Err(error) => Err(error.deep_view()),
    }
}

/// What is wrong with the options that say who administers the server and where its state is.
pub open spec fn startup_error(
    has_admin_token: bool,
    has_db_url: bool,
    has_db_url_file: bool,
) -> Option<ConfigErrorView> {
    if !has_admin_token {
        Some(
            ConfigErrorView::Option(
                "admin token is required; set --admin-token or LIGHTSCALE_ADMIN_TOKEN"@,
            ),
        )
    } else if has_db_url && has_db_url_file {
        Some(ConfigErrorView::Option("set only one of --db-url and --db-url-file"@))
    } else {
        None
    }
}

/// Refuses to start without an administrator's token, or with two places for the state.
pub fn check_startup(
    admin_token: &Option<String>,
    has_db_url: bool,
    has_db_url_file: bool,
) -> (r: Result<(), ConfigError>)
    ensures
        match startup_error(admin_token is Some, has_db_url, has_db_url_file) {
            Some(error) => config_outcome(r) == Err::<(), ConfigErrorView>(error),
            None => r is Ok,
        },
{
    if admin_token.is_none() {
        return Err(
            ConfigError::Option(
                "admin token is required; set --admin-token or LIGHTSCALE_ADMIN_TOKEN",
            ),
        );
    }
    if has_db_url && has_db_url_file {
        return Err(ConfigError::Option("set only one of --db-url and --db-url-file"));
    }
    Ok(())
}

/// The URL of the database that a file holds: what is not white space around it, if there is any.
pub fn db_url_from_file(contents: &str) -> (r: Option<String>)
    ensures
        r.deep_view() == (if trimmed(contents@).len() == 0 {
            None
        } else {
            Some(trimmed(contents@))
        }),
{
    let url: String = trim(contents);
    if url.as_str().is_empty() {
        None
    } else {
        Some(url)
    }
}

/// What a text names as the host of a name server, and its port; 53 where it names none. An IPv6
/// address with a port stands in brackets.
pub open spec fn host_port(value: Seq<char>) -> Result<(Seq<char>, u16), ConfigErrorView> {
    let value = trimmed(value);
    if value.len() == 0 {
        Err(ConfigErrorView::Option("missing host"@))
    } else if value[0] == '[' {
        match split_once_at(value.skip(1), ']') {
            None => Err(ConfigErrorView::Option("missing closing bracket"@)),
            Some((host, rest)) => if rest.len() == 0 {
                Ok((host, DEFAULT_DNS_PORT))
            } else if rest[0] == ':' {
                match port_value(rest.skip(1)) {
                    Some(port) => Ok((host, port)),
                    None => Err(ConfigErrorView::Option("invalid port"@)),
                }
            } else {
                Err(ConfigErrorView::Option("invalid bracketed host"@))
            },
        }
    } else {
        match parsed_ip(value) {
            Some(ip) => Ok((ip_text_of(ip), DEFAULT_DNS_PORT)),
            None => match rsplit_once_at(value, ':') {
                None => Ok((value, DEFAULT_DNS_PORT)),
                Some((host, port)) => if host.len() == 0 {
                    Err(ConfigErrorView::Option("missing host"@))
                } else if host.contains(':') {
                    Err(ConfigErrorView::Option("IPv6 addresses with port must be bracketed"@))
                } else {
                    match port_value(port) {
                        Some(port) => Ok((host, port)),
                        None => Err(ConfigErrorView::Option("invalid port"@)),
                    }
                },
            },
        }
    }
}

/// Reads the host and the port of a name server.
pub fn split_host_port(value: &str) -> (r: Result<(String, u16), ConfigError>)
    ensures
        config_outcome(r) == host_port(value@),
{
    let value: String = trim(value);
    let chars: Vec<char> = chars_of(value.as_str());
    if chars.len() == 0 {
        return Err(ConfigError::Option("missing host"));
    }
    if chars[0] == '[' {
        let (host, rest): (String, String) = match split_once(
            skip_chars(value.as_str(), 1).as_str(),
            ']',
        ) {
            Some(parts) => parts,
            None => {
                return Err(ConfigError::Option("missing closing bracket"));
            },
        };
        let tail: Vec<char> = chars_of(rest.as_str());
        if tail.len() == 0 {
            return Ok((host, DEFAULT_DNS_PORT));
        }
        if tail[0] == ':' {
            return match parse_port(skip_chars(rest.as_str(), 1).as_str()) {
                Some(port) => Ok((host, port)),
                None => Err(ConfigError::Option("invalid port")),
            };
        }
        return Err(ConfigError::Option("invalid bracketed host"));
    }
    if let Some(ip) = parse_ip(value.as_str()) {
        return Ok((ip_text(&ip), DEFAULT_DNS_PORT));
    }
    match rsplit_once(value.as_str(), ':') {
        None => Ok((value, DEFAULT_DNS_PORT)),
        Some((host, port)) => {
            if host.as_str().is_empty() {
                return Err(ConfigError::Option("missing host"));
            }
            if find(host.as_str(), ':').is_some() {
                return Err(ConfigError::Option("IPv6 addresses with port must be bracketed"));
            }
            match parse_port(port.as_str()) {
                Some(port) => Ok((host, port)),
                None => Err(ConfigError::Option("invalid port")),
            }
        },
    }
}

/// A host and a port; a host with a colon in it, an IPv6 address, is put in brackets.
pub open spec fn host_port_text(host: Seq<char>, port: u16) -> Seq<char> {
    if host.contains(':') && host[0] != '[' {
        seq!['['] + host + seq![']', ':'] + decimal(port as nat)
    } else {
        host + seq![':'] + decimal(port as nat)
    }
}

/// A host and a port; a host with a colon in it, an IPv6 address, is put in brackets.
pub fn format_host_port(host: &str, port: u16) -> (r: String)
    ensures
        r@ == host_port_text(host@, port),
{
    let bracketed: bool = match find(host, ':') {
        Some(_) => {
            let chars: Vec<char> = chars_of(host);
            chars[0] != '['
        },
        None => false,
    };
    let mut out: String = String::new();
    if bracketed {
        out.push('[');
        out.append(host);
        out.push(']');
    } else {
        out.append(host);
    }
    out.push(':');
    out.append(decimal_text(port as u64).as_str());
    assert(out@ =~= host_port_text(host@, port));
    out
}

/// The host that a URL names.
pub open spec fn url_host(url: Seq<char>) -> Option<Seq<char>> {
    let rest = if "https://"@.is_prefix_of(url) {
        Some(url.skip(8))
    } else if "http://"@.is_prefix_of(url) {
        Some(url.skip(7))
    } else {
        None
    };
    match rest {
        None => None,
        Some(rest) => {
            let authority = split_at(rest, '/')[0];
            if authority.len() == 0 {
                None
            } else if authority[0] == '[' {
                match split_once_at(authority, ']') {
                    Some((bracketed, _)) => Some(bracketed.skip(1)),
                    None => None,
                }
            } else {
                match rsplit_once_at(authority, ':') {
                    Some((host, _)) => if host.len() > 0 {
                        Some(host)
                    } else {
                        Some(authority)
                    },
                    None => Some(authority),
                }
            }
        },
    }
}

/// The host that a URL names.
pub fn extract_control_url_host(url: &str) -> (r: Option<String>)
    ensures
        r.deep_view() == url_host(url@),
{
    proof {
        reveal_strlit("https://");
        reveal_strlit("http://");
    }
    let rest: String = if starts_with(url, "https://") {
        skip_chars(url, 8)
    } else if starts_with(url, "http://") {
        skip_chars(url, 7)
    } else {
        return None;
    };
    let parts: Vec<String> = split(rest.as_str(), '/');
    assert(parts.deep_view().len() == parts@.len());
    assert(parts.deep_view()[0] == parts@[0]@);
    let authority: String = parts[0].clone();
    let chars: Vec<char> = chars_of(authority.as_str());
    if chars.len() == 0 {
        return None;
    }
    if chars[0] == '[' {
        return match split_once(authority.as_str(), ']') {
            Some((bracketed, _)) => {
                proof {
                    lemma_first_index(authority@, ']');
                    assert(authority@[0] == '[');
                }
                Some(skip_chars(bracketed.as_str(), 1))
            },
            None => None,
        };
    }
    match rsplit_once(authority.as_str(), ':') {
        Some((host, _)) => if host.as_str().is_empty() {
            Some(authority)
        } else {
            Some(host)
        },
        None => Some(authority),
    }
}

/// The name servers that the texts name, in their order: an empty text names none, and the first
/// that names no host and port is the error.
pub open spec fn dns_servers_named(values: Seq<Seq<char>>) -> Result<
    Seq<Seq<char>>,
    ConfigErrorView,
>
    decreases values.len(),
{
    if values.len() == 0 {
        Ok(Seq::empty())
    } else {
        match dns_servers_named(values.drop_last()) {
            Err(error) => Err(error),
            Ok(rest) => {
                let value = trimmed(values.last());
                if value.len() == 0 {
                    Ok(rest)
                } else {
                    match host_port(value) {
                        Ok((host, port)) => Ok(rest.push(host_port_text(host, port))),
                        Err(_) => Err(ConfigErrorView::DnsServer(value)),
                    }
                }
            },
        }
    }
}

/// Whether `r` holds what `named` names, sorted and each once, or the error in it.
pub open spec fn is_sorted_outcome(
    r: Result<Seq<Seq<char>>, ConfigErrorView>,
    named: Result<Seq<Seq<char>>, ConfigErrorView>,
) -> bool {
    match named {
        Ok(values) => r is Ok && is_sorted_set(r->Ok_0, values),
        Err(error) => r == Err::<Seq<Seq<char>>, ConfigErrorView>(error),
    }
}

/// An error stays the error whatever follows.
proof fn lemma_dns_error(values: Seq<Seq<char>>, n: int)
    requires
        0 <= n <= values.len(),
        dns_servers_named(values.take(n)) is Err,
    ensures
        dns_servers_named(values) == dns_servers_named(values.take(n)),
    decreases values.len() - n,
{
    if n < values.len() {
        assert(values.take(n + 1).drop_last() =~= values.take(n));
        lemma_dns_error(values, n + 1);
    } else {
        assert(values.take(n) =~= values);
    }
}

/// The name servers that the texts name, each as a host and a port, sorted and each once.
pub fn normalize_dns_server_values(values: &Vec<String>) -> (r: Result<Vec<String>, ConfigError>)
    ensures
        is_sorted_outcome(config_outcome(r), dns_servers_named(values.deep_view())),
{
    let ghost all = values.deep_view();
    let mut out: Vec<String> = Vec::new();
    let mut i: usize = 0;
    assert(out.deep_view() =~= Seq::<Seq<char>>::empty());
    while i < values.len()
        invariant
            i <= values@.len(),
            all == values.deep_view(),
            dns_servers_named(all.take(i as int)) == Ok::<Seq<Seq<char>>, ConfigErrorView>(
                out.deep_view(),
            ),
        decreases values.len() - i,
    {
        let value: String = trim(values[i].as_str());
        let ghost before = out.deep_view();
        proof {
            assert(all.take(i + 1).drop_last() =~= all.take(i as int));
            assert(all.take(i + 1).last() == all[i as int]);
        }
        if !value.as_str().is_empty() {
            match split_host_port(value.as_str()) {
                Ok((host, port)) => {
                    let server: String = format_host_port(host.as_str(), port);
                    out.push(server);
                    assert(out.deep_view() =~= before.push(server@));
                },
                Err(_) => {
                    proof {
                        lemma_dns_error(all, i + 1);
                    }
                    return Err(ConfigError::DnsServer(value));
                },
            }
        }
        i = i + 1;
    }
    assert(all.take(i as int) =~= all);
    Ok(sort_and_dedup(&out))
}

/// The hosts of the URLs that name one, each with a port.
pub open spec fn url_servers(urls: Seq<Seq<char>>, port: u16) -> Seq<Seq<char>>
    decreases urls.len(),
{
    if urls.len() == 0 {
        Seq::empty()
    } else {
        let rest = url_servers(urls.drop_last(), port);
        match url_host(urls.last()) {
            Some(host) => rest.push(host_port_text(host, port)),
            None => rest,
        }
    }
}

/// The hosts of the URLs that name one, each with a port.
fn servers_from_urls(urls: &Vec<String>, port: u16) -> (r: Vec<String>)
    ensures
        r.deep_view() == url_servers(urls.deep_view(), port),
{
    let ghost all = urls.deep_view();
    let mut out: Vec<String> = Vec::new();
    let mut i: usize = 0;
    assert(out.deep_view() =~= url_servers(all.take(0), port));
    while i < urls.len()
        invariant
            i <= urls@.len(),
            all == urls.deep_view(),
            out.deep_view() == url_servers(all.take(i as int), port),
        decreases urls.len() - i,
    {
        let ghost before = out.deep_view();
        proof {
            assert(all.take(i + 1).drop_last() =~= all.take(i as int));
            assert(all.take(i + 1).last() == all[i as int]);
        }
        if let Some(host) = extract_control_url_host(urls[i].as_str()) {
            let server: String = format_host_port(host.as_str(), port);
            out.push(server);
            assert(out.deep_view() =~= before.push(server@));
        }
        i = i + 1;
    }
    assert(all.take(i as int) =~= all);
    out
}

/// Whether an address stands for all addresses of the machine.
pub open spec fn is_unspecified(ip: IpAddress) -> bool {
    match ip {
        IpAddress::V4(ip) => ip == 0,
        IpAddress::V6(ip) => ip == 0,
    }
}

/// The name servers that are advertised: those given; or else, where the server answers queries,
/// the hosts of its URLs with the port that it listens on, or the address that it listens on.
pub open spec fn dns_servers_for(
    explicit: Seq<Seq<char>>,
    dns_listen: Option<Seq<char>>,
    control_urls: Seq<Seq<char>>,
) -> Result<Seq<Seq<char>>, ConfigErrorView> {
    if explicit.len() > 0 {
        dns_servers_named(explicit)
    } else {
        match dns_listen {
            None => Ok(Seq::empty()),
            Some(listen) => match parsed_socket(listen) {
                None => Err(ConfigErrorView::DnsListen(listen)),
                Some(addr) => {
                    let servers = url_servers(control_urls, addr.port);
                    if servers.len() == 0 && !is_unspecified(addr.ip) {
                        dns_servers_named(seq![socket_text_of(addr)])
                    } else {
                        dns_servers_named(servers)
                    }
                },
            },
        }
    }
}

/// The name servers that are advertised, sorted and each once.
pub fn resolve_dns_servers(
    explicit: &Vec<String>,
    dns_listen: Option<&str>,
    control_urls: &Vec<String>,
) -> (r: Result<Vec<String>, ConfigError>)
    ensures
        is_sorted_outcome(
            config_outcome(r),
            dns_servers_for(
                explicit.deep_view(),
                dns_listen.deep_view(),
                control_urls.deep_view(),
            ),
        ),
{
    if explicit.len() > 0 {
        return normalize_dns_server_values(explicit);
    }
    let listen: &str = match dns_listen {
        Some(listen) => listen,
        None => {
            let none: Vec<String> = Vec::new();
            assert(none.deep_view() =~= Seq::<Seq<char>>::empty());
            return Ok(none);
        },
    };
    let addr: SocketAddress = match parse_socket(listen) {
        Some(addr) => addr,
        None => {
            return Err(ConfigError::DnsListen(listen.to_owned()));
        },
    };
    let mut values: Vec<String> = servers_from_urls(control_urls, addr.port);
    let unspecified: bool = match addr.ip {
        IpAddress::V4(ip) => ip == 0,
        IpAddress::V6(ip) => ip == 0,
    };
    if values.len() == 0 && !unspecified {
        values.push(socket_text(&addr));
        assert(values.deep_view() =~= seq![socket_text_of(addr)]);
    }
    normalize_dns_server_values(&values)
}

/// Whether a text is the start of a URL that clients can use.
pub open spec fn is_web_url(url: Seq<char>) -> bool {
    "http://"@.is_prefix_of(url) || "https://"@.is_prefix_of(url)
}

/// A URL without the white space around it and the slashes at its end.
pub open spec fn clean_url(candidate: Seq<char>) -> Seq<char> {
    strip_trailing(trimmed(candidate), '/')
}

/// The URLs that the candidates write, in their order: an empty one writes none, and the first
/// that writes no URL is the error.
pub open spec fn urls_written(candidates: Seq<Seq<char>>) -> Result<Seq<Seq<char>>, ConfigErrorView>
    decreases candidates.len(),
{
    if candidates.len() == 0 {
        Ok(Seq::empty())
    } else {
        match urls_written(candidates.drop_last()) {
            Err(error) => Err(error),
            Ok(rest) => {
                let url = clean_url(candidates.last());
                if url.len() == 0 {
                    Ok(rest)
                } else if is_web_url(url) {
                    Ok(rest.push(url))
                } else {
                    Err(ConfigErrorView::ControlUrl(candidates.last()))
                }
            },
        }
    }
}

/// The parts of all values between commas, in their order.
pub open spec fn comma_parts(values: Seq<Seq<char>>) -> Seq<Seq<char>>
    decreases values.len(),
{
    if values.len() == 0 {
        Seq::empty()
    } else {
        comma_parts(values.drop_last()) + split_at(values.last(), ',')
    }
}

fn split_all(values: &Vec<String>) -> (r: Vec<String>)
    ensures
        r.deep_view() == comma_parts(values.deep_view()),
{
    let ghost all = values.deep_view();
    let mut out: Vec<String> = Vec::new();
    let mut i: usize = 0;
    assert(out.deep_view() =~= comma_parts(all.take(0)));
    while i < values.len()
        invariant
            i <= values@.len(),
            all == values.deep_view(),
            out.deep_view() == comma_parts(all.take(i as int)),
        decreases values.len() - i,
    {
        let parts: Vec<String> = split(values[i].as_str(), ',');
        let ghost before = out.deep_view();
        let ghost pieces = parts.deep_view();
        proof {
            assert(all.take(i + 1).drop_last() =~= all.take(i as int));
            assert(all.take(i + 1).last() == all[i as int]);
            assert(before + pieces.take(0) =~= before);
        }
        let mut k: usize = 0;
        while k < parts.len()
            invariant
                k <= parts@.len(),
                pieces == parts.deep_view(),
                out.deep_view() == before + pieces.take(k as int),
            decreases parts.len() - k,
        {
            let ghost now = out.deep_view();
            out.push(parts[k].clone());
            assert(out.deep_view() =~= now.push(pieces[k as int]));
            assert(before + pieces.take(k + 1) =~= now.push(pieces[k as int]));
            k = k + 1;
        }
        assert(pieces.take(k as int) =~= pieces);
        i = i + 1;
    }
    assert(all.take(i as int) =~= all);
    out
}

/// An error stays the error whatever follows.
proof fn lemma_url_error(candidates: Seq<Seq<char>>, n: int)
    requires
        0 <= n <= candidates.len(),
        urls_written(candidates.take(n)) is Err,
    ensures
        urls_written(candidates) == urls_written(candidates.take(n)),
    decreases candidates.len() - n,
{
    if n < candidates.len() {
        assert(candidates.take(n + 1).drop_last() =~= candidates.take(n));
        lemma_url_error(candidates, n + 1);
    } else {
        assert(candidates.take(n) =~= candidates);
    }
}

/// The URLs under which clients reach the server, sorted and each once.
pub fn normalize_control_urls(values: &Vec<String>) -> (r: Result<Vec<String>, ConfigError>)
    ensures
        is_sorted_outcome(config_outcome(r), urls_written(comma_parts(values.deep_view()))),
{
    let candidates: Vec<String> = split_all(values);
    let ghost all = candidates.deep_view();
    let mut out: Vec<String> = Vec::new();
    let mut i: usize = 0;
    assert(out.deep_view() =~= Seq::<Seq<char>>::empty());
    while i < candidates.len()
        invariant
            i <= candidates@.len(),
            all == candidates.deep_view(),
            all == comma_parts(values.deep_view()),
            urls_written(all.take(i as int)) == Ok::<Seq<Seq<char>>, ConfigErrorView>(
                out.deep_view(),
            ),
        decreases candidates.len() - i,
    {
        let url: String = trim_end_matches(trim(candidates[i].as_str()).as_str(), '/');
        let ghost before = out.deep_view();
        proof {
            assert(all.take(i + 1).drop_last() =~= all.take(i as int));
            assert(all.take(i + 1).last() == all[i as int]);
        }
        if !url.as_str().is_empty() {
            if !starts_with(url.as_str(), "http://") && !starts_with(url.as_str(), "https://") {
                proof {
                    lemma_url_error(all, i + 1);
                }
                return Err(ConfigError::ControlUrl(candidates[i].clone()));
            }
            let ghost added = url@;
            out.push(url);
            assert(out.deep_view() =~= before.push(added));
        }
        i = i + 1;
    }
    assert(all.take(i as int) =~= all);
    Ok(sort_and_dedup(&out))
}

/// Another server of the mesh.
pub struct MeshPeer {
    pub id: String,
    pub addr: String,
}

/// What [`MeshPeer`] holds.
#[verifier::ext_equal]
pub struct MeshPeerView {
    pub id: Seq<char>,
    pub addr: Seq<char>,
}

impl DeepView for MeshPeer {
    type V = MeshPeerView;

    open spec fn deep_view(&self) -> MeshPeerView {
        MeshPeerView { id: self.id@, addr: self.addr@ }
    }
}

impl Clone for MeshPeer {
    fn clone(&self) -> (r: Self)
        ensures
            r.deep_view() == self.deep_view(),
    {
        MeshPeer { id: self.id.clone(), addr: self.addr.clone() }
    }
}

/// The peer that a text `ID=HOST:PORT` names, if it names one.
pub open spec fn peer_named(value: Seq<char>) -> Option<MeshPeerView> {
    match split_once_at(value, '=') {
        None => None,
        Some((id, addr)) => if trimmed(id).len() == 0 || trimmed(addr).len() == 0 {
            None
        } else {
            Some(MeshPeerView { id: trimmed(id), addr: trimmed(addr) })
        },
    }
}

/// The peers that the texts name, in their order; the first that names none is the error.
pub open spec fn peers_named(values: Seq<Seq<char>>) -> Result<Seq<MeshPeerView>, ConfigErrorView>
    decreases values.len(),
{
    if values.len() == 0 {
        Ok(Seq::empty())
    } else {
        match peers_named(values.drop_last()) {
            Err(error) => Err(error),
            Ok(rest) => match peer_named(values.last()) {
                Some(peer) => Ok(rest.push(peer)),
                None => Err(ConfigErrorView::MeshPeer(values.last())),
            },
        }
    }
}

/// An error stays the error whatever follows.
proof fn lemma_peer_error(values: Seq<Seq<char>>, n: int)
    requires
        0 <= n <= values.len(),
        peers_named(values.take(n)) is Err,
    ensures
        peers_named(values) == peers_named(values.take(n)),
    decreases values.len() - n,
{
    if n < values.len() {
        assert(values.take(n + 1).drop_last() =~= values.take(n));
        lemma_peer_error(values, n + 1);
    } else {
        assert(values.take(n) =~= values);
    }
}

/// The peers of the mesh.
pub fn parse_mesh_peers(values: &Vec<String>) -> (r: Result<Vec<MeshPeer>, ConfigError>)
    ensures
        config_outcome(r) == peers_named(values.deep_view()),
{
    let ghost all = values.deep_view();
    let mut out: Vec<MeshPeer> = Vec::new();
    let mut i: usize = 0;
    assert(out.deep_view() =~= Seq::<MeshPeerView>::empty());
    while i < values.len()
        invariant
            i <= values@.len(),
            all == values.deep_view(),
            peers_named(all.take(i as int)) == Ok::<Seq<MeshPeerView>, ConfigErrorView>(
                out.deep_view(),
            ),
        decreases values.len() - i,
    {
        let ghost before = out.deep_view();
        proof {
            assert(all.take(i + 1).drop_last() =~= all.take(i as int));
            assert(all.take(i + 1).last() == all[i as int]);
        }
        let (id, addr): (String, String) = match split_once(values[i].as_str(), '=') {
            Some((id, addr)) => (trim(id.as_str()), trim(addr.as_str())),
            None => {
                proof {
                    lemma_peer_error(all, i + 1);
                }
                return Err(ConfigError::MeshPeer(values[i].clone()));
            },
        };
        if id.as_str().is_empty() || addr.as_str().is_empty() {
            proof {
                lemma_peer_error(all, i + 1);
            }
            return Err(ConfigError::MeshPeer(values[i].clone()));
        }
        let peer = MeshPeer { id, addr };
        let ghost added = peer.deep_view();
        out.push(peer);
        assert(out.deep_view() =~= before.push(added));
        i = i + 1;
    }
    assert(all.take(i as int) =~= all);
    Ok(out)
}

/// The options about the mesh; `P` is a path of a file.
pub struct MeshOptions<P> {
    pub server_id: Option<String>,
    pub listen: Option<String>,
    pub peers: Vec<String>,
    pub ca_cert: Option<P>,
    pub cert: Option<P>,
    pub key: Option<P>,
    pub max_hops: u8,
}

/// How the server takes part in the mesh; `P` is a path of a file.
pub struct MeshConfig<P> {
    pub server_id: String,
    pub listen: SocketAddress,
    pub peers: Vec<MeshPeer>,
    pub ca_cert_path: P,
    pub cert_path: P,
    pub key_path: P,
    pub max_hops: u8,
}

impl<P> MeshOptions<P> {
    /// Whether any option about the mesh is given.
    pub open spec fn enabled(self) -> bool {
        ||| self.server_id is Some
        ||| self.listen is Some
        ||| self.peers@.len() > 0
        ||| self.ca_cert is Some
        ||| self.cert is Some
        ||| self.key is Some
    }

    /// What is wrong with the options about the mesh, if anything is: the first thing that is
    /// missing or cannot be read.
    pub open spec fn mistake(self) -> Option<ConfigErrorView> {
        if self.server_id is None {
            Some(ConfigErrorView::Option("mesh requires --mesh-server-id"@))
        } else if self.listen is None {
            Some(ConfigErrorView::Option("mesh requires --mesh-listen"@))
        } else if parsed_socket(self.listen.deep_view()->0) is None {
            Some(ConfigErrorView::Listen(self.listen.deep_view()->0))
        } else if self.ca_cert is None {
            Some(ConfigErrorView::Option("mesh requires --mesh-ca-cert"@))
        } else if self.cert is None {
            Some(ConfigErrorView::Option("mesh requires --mesh-cert"@))
        } else if self.key is None {
            Some(ConfigErrorView::Option("mesh requires --mesh-key"@))
        } else {
            match peers_named(self.peers.deep_view()) {
                Err(error) => Some(error),
                Ok(peers) => if peers.len() == 0 {
                    Some(ConfigErrorView::Option("mesh requires at least one --mesh-peer"@))
                } else if self.max_hops == 0 {
                    Some(ConfigErrorView::Option("--mesh-max-hops must be > 0"@))
                } else {
                    None
                },
            }
        }
    }

    /// Whether a configuration is what the options ask for.
    pub open spec fn asks_for(self, config: MeshConfig<P>) -> bool {
        &&& self.server_id.deep_view() == Some(config.server_id@)
        &&& parsed_socket(self.listen.deep_view()->0) == Some(config.listen)
        &&& peers_named(self.peers.deep_view()) == Ok::<Seq<MeshPeerView>, ConfigErrorView>(
            config.peers.deep_view(),
        )
        &&& self.ca_cert == Some(config.ca_cert_path)
        &&& self.cert == Some(config.cert_path)
        &&& self.key == Some(config.key_path)
        &&& self.max_hops == config.max_hops
    }
}

/// How the server takes part in the mesh, if it does.
pub fn build_mesh_config<P>(options: MeshOptions<P>) -> (r: Result<
    Option<MeshConfig<P>>,
    ConfigError,
>)
    ensures
        !options.enabled() ==> r == Ok::<Option<MeshConfig<P>>, ConfigError>(None),
        options.enabled() ==> match options.mistake() {
            Some(error) => r is Err && r->Err_0.deep_view() == error,
            None => r is Ok && r->Ok_0 is Some && options.asks_for(r->Ok_0->0),
        },
{
    let enabled: bool = options.server_id.is_some() || options.listen.is_some()
        || options.peers.len() > 0 || options.ca_cert.is_some() || options.cert.is_some()
        || options.key.is_some();
    if !enabled {
        return Ok(None);
    }
    let server_id: String = match options.server_id {
        Some(id) => id,
        None => {
            return Err(ConfigError::Option("mesh requires --mesh-server-id"));
        },
    };
    let listen: String = match options.listen {
        Some(listen) => listen,
        None => {
            return Err(ConfigError::Option("mesh requires --mesh-listen"));
        },
    };
    let listen: SocketAddress = match parse_socket(listen.as_str()) {
        Some(addr) => addr,
        None => {
            return Err(ConfigError::Listen(listen));
        },
    };
    let ca_cert_path: P = match options.ca_cert {
        Some(path) => path,
        None => {
            return Err(ConfigError::Option("mesh requires --mesh-ca-cert"));
        },
    };
    let cert_path: P = match options.cert {
        Some(path) => path,
        None => {
            return Err(ConfigError::Option("mesh requires --mesh-cert"));
        },
    };
    let key_path: P = match options.key {
        Some(path) => path,
        None => {
            return Err(ConfigError::Option("mesh requires --mesh-key"));
        },
    };
    let peers: Vec<MeshPeer> = match parse_mesh_peers(&options.peers) {
        Ok(peers) => peers,
        Err(error) => {
            return Err(error);
        },
    };
    assert(peers.deep_view().len() == peers@.len());
    if peers.len() == 0 {
        return Err(ConfigError::Option("mesh requires at least one --mesh-peer"));
    }
    if options.max_hops == 0 {
        return Err(ConfigError::Option("--mesh-max-hops must be > 0"));
    }
    Ok(
        Some(
            MeshConfig {
                server_id,
                listen,
                peers,
                ca_cert_path,
                cert_path,
                key_path,
                max_hops: options.max_hops,
            },
        ),
    )
}

/// An IPv6 address that is written with a port can be read back, address and port.
pub proof fn law_bracketed_host_round_trip(host: Seq<char>, port: u16)
    requires
        host.contains(':'),
        host[0] != '[',
        !host.contains(']'),
    ensures
        host_port(host_port_text(host, port)) == Ok::<(Seq<char>, u16), ConfigErrorView>(
            (host, port),
        ),
{
    let text = host_port_text(host, port);
    let digits = decimal(port as nat);
    lemma_decimal(port as nat);
    lemma_port_round_trip(port);
    assert(is_digit(digits[digits.len() - 1]));
    assert(text.last() == digits.last());
    assert(trim_start(text) == text);
    assert(trimmed(text) == text);
    let inner = text.skip(1);
    let rest = seq![':'] + digits;
    assert(inner =~= host + seq![']'] + rest);
    lemma_first_index(inner, ']');
    let at = first_index(inner, ']');
    assert(inner[host.len() as int] == ']');
    if at < host.len() {
        assert(host[at] == inner[at]);
    }
    assert(at == host.len());
    assert(inner.contains(']'));
    assert(inner.take(at) =~= host);
    assert(inner.skip(at + 1) =~= rest);
    assert(rest.skip(1) =~= digits);
}

/// A host name or an IPv4 address that is written with a port can be read back, host and port.
pub proof fn law_named_host_round_trip(host: Seq<char>, port: u16)
    requires
        host.len() > 0,
        !is_space(host[0]),
        !host.contains(':'),
        host[0] != '[',
    ensures
        host_port(host_port_text(host, port)) == Ok::<(Seq<char>, u16), ConfigErrorView>(
            (host, port),
        ),
{
    let text = host_port_text(host, port);
    let digits = decimal(port as nat);
    lemma_decimal(port as nat);
    lemma_port_round_trip(port);
    assert(is_digit(digits[digits.len() - 1]));
    assert(text.last() == digits.last());
    assert(text[0] == host[0]);
    assert(trim_start(text) == text);
    assert(trimmed(text) == text);
    lemma_last_index(text, ':');
    let at = last_index(text, ':');
    assert(text[host.len() as int] == ':');
    assert forall|i: int| 0 <= i < text.len() && i != host.len() implies #[trigger] text[i]
        != ':' by {
        if i < host.len() {
            assert(host.contains(host[i]));
        } else {
            assert(is_digit(digits[i - host.len() - 1]));
        }
    }
    assert(at == host.len());
    assert(text.take(at) =~= host);
    assert(text.skip(at + 1) =~= digits);
    assert(text.contains(':'));
    assert(parsed_ip(text) is None) by {
        if exists|ip: u32| text == #[trigger] dotted(ip) {
            lemma_dotted_lacks(choose|ip: u32| text == #[trigger] dotted(ip), ':');
        }
    }
}

/// Where no port is written the port is 53: a host without a colon and without white space around
/// it stands for itself, and so does an IPv6 address in brackets.
pub proof fn law_omitted_port(host: Seq<char>)
    ensures
        host.len() > 0 && trimmed(host) == host && !host.contains(':') && host[0] != '['
            ==> host_port(host) == Ok::<(Seq<char>, u16), ConfigErrorView>((host, 53)),
        !host.contains(']') ==> host_port(seq!['['] + host + seq![']']) == Ok::<
            (Seq<char>, u16),
            ConfigErrorView,
        >((host, 53)),
{
    if host.len() > 0 && trimmed(host) == host && !host.contains(':') && host[0] != '[' {
        if exists|ip: u32| host == #[trigger] dotted(ip) {
            let ip = choose|ip: u32| host == #[trigger] dotted(ip);
            law_dotted_is_read_back(ip);
        }
        if two_colons(host) {
            let (i, j) = choose|i: int, j: int|
                0 <= i < j < host.len() && #[trigger] host[i] == ':' && #[trigger] host[j] == ':';
            assert(host.contains(host[i]));
        }
    }
    if !host.contains(']') {
        let text = seq!['['] + host + seq![']'];
        assert(text[0] == '[');
        assert(text.last() == ']');
        assert(trim_start(text) == text);
        assert(trimmed(text) == text);
        let inner = text.skip(1);
        assert(inner =~= host.push(']'));
        lemma_first_index(inner, ']');
        let at = first_index(inner, ']');
        assert(inner[host.len() as int] == ']');
        if at < host.len() {
            assert(host[at] == inner[at]);
        }
        assert(at == host.len());
        assert(inner.take(at) =~= host);
        assert(inner.skip(at + 1) =~= Seq::<char>::empty());
        assert(inner.contains(']'));
    }
}

/// A host is read back from its text with a port whether or not it holds a colon, as long as it
/// holds neither brackets nor white space.
pub proof fn law_host_round_trip(host: Seq<char>, port: u16)
    requires
        host.len() > 0,
        !host.contains('['),
        !host.contains(']'),
        forall|i: int| 0 <= i < host.len() ==> !is_space(#[trigger] host[i]),
    ensures
        host_port(host_port_text(host, port)) == Ok::<(Seq<char>, u16), ConfigErrorView>(
            (host, port),
        ),
        !host.contains(':') ==> host_port(host) == Ok::<(Seq<char>, u16), ConfigErrorView>(
            (host, 53),
        ),
{
    assert(host.contains(host[0]));
    if host.contains(':') {
        law_bracketed_host_round_trip(host, port);
    } else {
        law_named_host_round_trip(host, port);
        assert(trim_start(host) == host);
        assert(!is_space(host[host.len() - 1]));
        assert(trimmed(host) == host);
        law_omitted_port(host);
    }
}

/// A server does not start without the administrators' token, nor with two places for the address
/// of its database, and starts otherwise.
pub proof fn law_startup(has_admin_token: bool, has_db_url: bool, has_db_url_file: bool)
    ensures
        startup_error(has_admin_token, has_db_url, has_db_url_file) is None <==> has_admin_token
            && !(has_db_url && has_db_url_file),
        !has_admin_token ==> startup_error(has_admin_token, has_db_url, has_db_url_file) == Some(
            ConfigErrorView::Option(
                "admin token is required; set --admin-token or LIGHTSCALE_ADMIN_TOKEN"@,
            ),
        ),
{
}

/// A peer is written as its name, an equals sign and its address, where white space does not count.
pub proof fn law_peer_is_read_back(id: Seq<char>, addr: Seq<char>)
    requires
        !id.contains('='),
    ensures
        trimmed(id).len() > 0 && trimmed(addr).len() > 0 ==> peer_named(id + seq!['='] + addr)
            == Some(MeshPeerView { id: trimmed(id), addr: trimmed(addr) }),
        trimmed(id).len() == 0 || trimmed(addr).len() == 0 ==> peer_named(id + seq!['='] + addr)
            is None,
        peer_named(id) is None,
{
    let s = id + seq!['='] + addr;
    assert(s[id.len() as int] == '=');
    lemma_first_index(s, '=');
    let at = first_index(s, '=');
    if at < id.len() {
        assert(id[at] == s[at]);
    }
    assert(s.take(at) =~= id);
    assert(s.skip(at + 1) =~= addr);
}

/// The peers are those that the values write, one for each, in order. They are refused for the
/// first value that writes none.
pub proof fn law_peers_are_as_written(values: Seq<Seq<char>>, i: int)
    requires
        0 <= i <= values.len(),
        forall|j: int| 0 <= j < i ==> peer_named(#[trigger] values[j]) is Some,
        i < values.len() ==> peer_named(values[i]) is None,
    ensures
        i < values.len() ==> peers_named(values) == Err::<Seq<MeshPeerView>, ConfigErrorView>(
            ConfigErrorView::MeshPeer(values[i]),
        ),
        i == values.len() ==> peers_named(values) == Ok::<Seq<MeshPeerView>, ConfigErrorView>(
            Seq::new(values.len(), |j: int| peer_named(values[j])->0),
        ),
    decreases values.len(),
{
    if values.len() > 0 {
        let rest = values.drop_last();
        if i == values.len() {
            law_peers_are_as_written(rest, i - 1);
            let peers = Seq::new(values.len(), |j: int| peer_named(values[j])->0);
            assert(values[values.len() - 1] == values.last());
            assert(Seq::new(rest.len(), |j: int| peer_named(rest[j])->0).push(
                peer_named(values.last())->0,
            ) =~= peers);
        } else if i < rest.len() {
            assert(rest[i] == values[i]);
            law_peers_are_as_written(rest, i);
        } else {
            law_peers_are_as_written(rest, rest.len() as int);
        }
    } else {
        assert(Seq::new(values.len(), |j: int| peer_named(values[j])->0) =~= Seq::empty());
    }
}

/// The mesh is set up with what each option says.
pub proof fn law_mesh_config<P>(options: MeshOptions<P>, config: MeshConfig<P>)
    requires
        options.asks_for(config),
    ensures
        options.server_id matches Some(id) && id@ == config.server_id@,
        options.listen matches Some(listen) ==> parsed_socket(listen@) == Some(config.listen),
        options.ca_cert == Some(config.ca_cert_path),
        options.cert == Some(config.cert_path),
        options.key == Some(config.key_path),
        options.max_hops == config.max_hops,
        peers_named(options.peers.deep_view()) == Ok::<Seq<MeshPeerView>, ConfigErrorView>(
            config.peers.deep_view(),
        ),
{
}

/// The options of the mesh are in order exactly where all of them are given, the address can be
/// read, the peers can be read and there is one, and messages may make a hop.
pub proof fn law_mesh_options<P>(options: MeshOptions<P>)
    ensures
        options.mistake() is None <==> {
            &&& options.server_id is Some
            &&& options.listen is Some && parsed_socket(options.listen->0@) is Some
            &&& options.ca_cert is Some
            &&& options.cert is Some
            &&& options.key is Some
            &&& peers_named(options.peers.deep_view()) is Ok
            &&& peers_named(options.peers.deep_view())->Ok_0.len() > 0
            &&& options.max_hops > 0
        },
        options.enabled() <==> options.server_id is Some || options.listen is Some
            || options.peers@.len() > 0 || options.ca_cert is Some || options.cert is Some
            || options.key is Some,
{
}

/// The host of a web address stands behind the scheme, up to the port and the path.
pub proof fn law_url_host(scheme: Seq<char>, host: Seq<char>, port: Seq<char>, path: Seq<char>)
    requires
        scheme == "http://"@ || scheme == "https://"@,
        host.len() > 0,
        host[0] != '[',
        !host.contains('/'),
        !host.contains(':'),
        !port.contains('/'),
        !port.contains(':'),
    ensures
        url_host(scheme + host + seq![':'] + port + seq!['/'] + path) == Some(host),
        url_host(scheme + host + seq![':'] + port) == Some(host),
        url_host(scheme + host + seq!['/'] + path) == Some(host),
        url_host(scheme + host) == Some(host),
{
    let named = host + seq![':'] + port;
    assert(!named.contains('/')) by {
        if named.contains('/') {
            let i = named.index_of('/');
            if i < host.len() {
                assert(host[i] == '/');
            } else if i > host.len() {
                assert(port[i - host.len() - 1] == '/');
            }
        }
    }
    lemma_authority(scheme, named, path);
    lemma_authority(scheme, host, path);
    assert(scheme + host + seq![':'] + port + seq!['/'] + path =~= scheme + named + seq!['/']
        + path);
    assert(scheme + host + seq![':'] + port =~= scheme + named);
    assert(named[host.len() as int] == ':');
    lemma_last_index(named, ':');
    lemma_last_index(host, ':');
    let at = last_index(named, ':');
    if at > host.len() {
        assert(port[at - host.len() - 1] == ':');
    }
    assert(named.take(at) =~= host);
    assert(named[0] == host[0]);
}

/// A scheme does not count towards the host, and neither does a path.
proof fn lemma_authority(scheme: Seq<char>, authority: Seq<char>, path: Seq<char>)
    requires
        scheme == "http://"@ || scheme == "https://"@,
        !authority.contains('/'),
    ensures
        ({
            let host = if authority.len() == 0 {
                None
            } else if authority[0] == '[' {
                match split_once_at(authority, ']') {
                    Some((bracketed, _)) => Some(bracketed.skip(1)),
                    None => None,
                }
            } else {
                match rsplit_once_at(authority, ':') {
                    Some((host, _)) => if host.len() > 0 {
                        Some(host)
                    } else {
                        Some(authority)
                    },
                    None => Some(authority),
                }
            };
            &&& url_host(scheme + authority) == host
            &&& url_host(scheme + authority + seq!['/'] + path) == host
        }),
{
    reveal_strlit("http://");
    reveal_strlit("https://");
    let short = scheme + authority;
    let long = scheme + authority + seq!['/'] + path;
    let n = scheme.len() as int;
    assert(short.subrange(0, n) =~= scheme);
    assert(long.subrange(0, n) =~= scheme);
    assert(scheme.is_prefix_of(short));
    assert(scheme.is_prefix_of(long));
    if scheme == "http://"@ {
        assert(short[4] == ':' && long[4] == ':');
        assert("https://"@[4] == 's');
        if "https://"@.is_prefix_of(short) {
            assert(short.subrange(0, 8)[4] == 's');
        }
        if "https://"@.is_prefix_of(long) {
            assert(long.subrange(0, 8)[4] == 's');
        }
    }
    assert(short.skip(n) =~= authority);
    assert(long.skip(n) =~= authority + seq!['/'] + path);
    lemma_first_index(authority, '/');
    assert(split_at(authority, '/')[0] == authority);
    let rest = authority + seq!['/'] + path;
    assert(rest[authority.len() as int] == '/');
    lemma_first_index(rest, '/');
    let at = first_index(rest, '/');
    if at < authority.len() {
        assert(authority[at] == rest[at]);
    }
    assert(rest.take(at) =~= authority);
    assert(split_at(rest, '/')[0] == authority);
}

/// The addresses of the server are those that the candidates write, without the white space around
/// them and the slashes behind them, where something is left. They are refused for the first that
/// is no web address.
pub proof fn law_urls_are_as_written(candidates: Seq<Seq<char>>, url: Seq<char>)
    ensures
        urls_written(candidates) matches Ok(urls) ==> (urls.contains(url) <==> url.len() > 0
            && exists|i: int|
            0 <= i < candidates.len() && strip_trailing(trimmed(#[trigger] candidates[i]), '/')
                == url),
        urls_written(candidates) is Ok <==> forall|i: int|
            0 <= i < candidates.len() ==> {
                let one = strip_trailing(trimmed(#[trigger] candidates[i]), '/');
                one.len() == 0 || "http://"@.is_prefix_of(one) || "https://"@.is_prefix_of(one)
            },
        urls_written(candidates) matches Err(error) ==> exists|i: int|
            0 <= i < candidates.len() && error == ConfigErrorView::ControlUrl(
                #[trigger] candidates[i],
            ),
    decreases candidates.len(),
{
    if candidates.len() > 0 {
        let rest = candidates.drop_last();
        let last = candidates.last();
        law_urls_are_as_written(rest, url);
        assert forall|i: int| 0 <= i < rest.len() implies #[trigger] rest[i] == candidates[i] by {
        }
        assert forall|i: int| 0 <= i < candidates.len() - 1 implies #[trigger] candidates[i]
            == rest[i] by {
        }
        assert(candidates[candidates.len() - 1] == last);
        let one = clean_url(last);
        if urls_written(rest) is Err {
            let i = choose|i: int|
                0 <= i < rest.len() && urls_written(rest)->Err_0 == ConfigErrorView::ControlUrl(
                    #[trigger] rest[i],
                );
            assert(candidates[i] == rest[i]);
            let j = choose|j: int|
                0 <= j < rest.len() && !({
                    let one = strip_trailing(trimmed(#[trigger] rest[j]), '/');
                    one.len() == 0 || "http://"@.is_prefix_of(one) || "https://"@.is_prefix_of(one)
                });
            assert(candidates[j] == rest[j]);
        } else if urls_written(candidates) is Ok {
            let before = urls_written(rest)->Ok_0;
            let urls = urls_written(candidates)->Ok_0;
            if one.len() > 0 {
                assert(urls == before.push(one));
                assert(urls[urls.len() - 1] == one);
                if before.contains(url) {
                    let i = before.index_of(url);
                    assert(urls[i] == url);
                }
                if urls.contains(url) && !before.contains(url) {
                    let i = urls.index_of(url);
                    if i < before.len() {
                        assert(before[i] == url);
                    }
                }
            }
        }
    }
}

/// The parts of a list of values are what stands between the commas in each of them.
pub proof fn law_comma_parts(values: Seq<Seq<char>>, part: Seq<char>)
    ensures
        comma_parts(values).contains(part) <==> exists|i: int|
            0 <= i < values.len() && split_at(#[trigger] values[i], ',').contains(part),
    decreases values.len(),
{
    if values.len() > 0 {
        let rest = values.drop_last();
        law_comma_parts(rest, part);
        let before = comma_parts(rest);
        let last = split_at(values.last(), ',');
        let all = comma_parts(values);
        assert forall|i: int| 0 <= i < rest.len() implies #[trigger] rest[i] == values[i] by {
        }
        assert forall|i: int| 0 <= i < values.len() - 1 implies #[trigger] values[i] == rest[i] by {
        }
        assert(values[values.len() - 1] == values.last());
        if all.contains(part) {
            let i = all.index_of(part);
            if i < before.len() {
                assert(before[i] == part);
            } else {
                assert(last[i - before.len()] == part);
            }
        }
        if before.contains(part) {
            let i = before.index_of(part);
            assert(all[i] == part);
        }
        if last.contains(part) {
            let i = last.index_of(part);
            assert(all[before.len() + i] == part);
        }
    }
}

/// The name servers are those that the values write, with the port that each writes or the usual
/// one, where something is written. They are refused for the first that writes none.
pub proof fn law_dns_servers_are_as_written(values: Seq<Seq<char>>, server: Seq<char>)
    ensures
        dns_servers_named(values) matches Ok(servers) ==> (servers.contains(server) <==> exists|
            i: int,
        |
            {
                &&& 0 <= i < values.len()
                &&& trimmed(#[trigger] values[i]).len() > 0
                &&& host_port(trimmed(values[i])) is Ok
                &&& ({
                    let (host, port) = host_port(trimmed(values[i]))->Ok_0;
                    server == host_port_text(host, port)
                })
            }),
        dns_servers_named(values) is Ok <==> forall|i: int|
            0 <= i < values.len() ==> trimmed(#[trigger] values[i]).len() == 0 || host_port(
                trimmed(values[i]),
            ) is Ok,
    decreases values.len(),
{
    if values.len() > 0 {
        let rest = values.drop_last();
        law_dns_servers_are_as_written(rest, server);
        assert forall|i: int| 0 <= i < rest.len() implies #[trigger] rest[i] == values[i] by {
        }
        assert forall|i: int| 0 <= i < values.len() - 1 implies #[trigger] values[i] == rest[i] by {
        }
        assert(values[values.len() - 1] == values.last());
        if dns_servers_named(rest) is Err {
            let j = choose|j: int|
                0 <= j < rest.len() && !(trimmed(#[trigger] rest[j]).len() == 0 || host_port(
                    trimmed(rest[j]),
                ) is Ok);
            assert(values[j] == rest[j]);
        } else if dns_servers_named(values) is Ok {
            let before = dns_servers_named(rest)->Ok_0;
            let all = dns_servers_named(values)->Ok_0;
            if trimmed(values.last()).len() > 0 {
                let (host, port) = host_port(trimmed(values.last()))->Ok_0;
                assert(all == before.push(host_port_text(host, port)));
                assert(all[all.len() - 1] == host_port_text(host, port));
                if before.contains(server) {
                    let i = before.index_of(server);
                    assert(all[i] == server);
                }
                if all.contains(server) && !before.contains(server) {
                    let i = all.index_of(server);
                    if i < before.len() {
                        assert(before[i] == server);
                    }
                }
            }
        }
    }
}

/// The hosts of the web addresses of the server, with a port, are name servers.
pub proof fn law_url_servers(urls: Seq<Seq<char>>, port: u16, server: Seq<char>)
    ensures
        url_servers(urls, port).contains(server) <==> exists|i: int|
            0 <= i < urls.len() && url_host(#[trigger] urls[i]) is Some && server
                == host_port_text(url_host(urls[i])->0, port),
    decreases urls.len(),
{
    if urls.len() > 0 {
        let rest = urls.drop_last();
        law_url_servers(rest, port, server);
        let before = url_servers(rest, port);
        let all = url_servers(urls, port);
        assert forall|i: int| 0 <= i < rest.len() implies #[trigger] rest[i] == urls[i] by {
        }
        assert forall|i: int| 0 <= i < urls.len() - 1 implies #[trigger] urls[i] == rest[i] by {
        }
        assert(urls[urls.len() - 1] == urls.last());
        if before.contains(server) {
            let i = before.index_of(server);
            assert(all[i] == server);
        }
        if url_host(urls.last()) is Some {
            assert(all[all.len() - 1] == host_port_text(url_host(urls.last())->0, port));
        }
        if all.contains(server) && !before.contains(server) {
            let i = all.index_of(server);
            if i < before.len() {
                assert(before[i] == server);
            }
        }
    }
}

/// Nodes are told of the name servers that were given, or else, if the server answers names itself,
/// of the hosts of its web addresses with the port at which it does, or else of the address at
/// which it does unless that stands for all addresses.
pub proof fn law_dns_servers(
    explicit: Seq<Seq<char>>,
    listen: Seq<char>,
    control_urls: Seq<Seq<char>>,
)
    ensures
        explicit.len() > 0 ==> dns_servers_for(explicit, Some(listen), control_urls)
            == dns_servers_named(explicit) && dns_servers_for(explicit, None, control_urls)
            == dns_servers_named(explicit),
        explicit.len() == 0 ==> dns_servers_for(explicit, None, control_urls) == Ok::<
            Seq<Seq<char>>,
            ConfigErrorView,
        >(Seq::empty()),
        explicit.len() == 0 && parsed_socket(listen) is None ==> dns_servers_for(
            explicit,
            Some(listen),
            control_urls,
        ) == Err::<Seq<Seq<char>>, ConfigErrorView>(ConfigErrorView::DnsListen(listen)),
        explicit.len() == 0 && parsed_socket(listen) is Some ==> {
            let addr = parsed_socket(listen)->0;
            let hosts = url_servers(control_urls, addr.port);
            let told = dns_servers_for(explicit, Some(listen), control_urls);
            &&& hosts.len() > 0 ==> told == dns_servers_named(hosts)
            &&& hosts.len() == 0 && addr.ip != IpAddress::V4(0) && addr.ip != IpAddress::V6(0)
                ==> told == dns_servers_named(seq![socket_text_of(addr)])
            &&& hosts.len() == 0 && (addr.ip == IpAddress::V4(0) || addr.ip == IpAddress::V6(0))
                ==> told == Ok::<Seq<Seq<char>>, ConfigErrorView>(Seq::empty())
        },
{
    if let Some(addr) = parsed_socket(listen) {
        let hosts = url_servers(control_urls, addr.port);
        if hosts.len() == 0 {
            assert(hosts =~= Seq::empty());
        }
    }
}

/// A host and a port are written with a colon between them, and a host with colons in brackets.
pub proof fn law_host_port_text(host: Seq<char>, port: u16)
    ensures
        !host.contains(':') ==> host_port_text(host, port) == host + seq![':'] + decimal(
            port as nat,
        ),
        host.contains(':') && host[0] != '[' ==> host_port_text(host, port) == seq!['['] + host
            + seq![']', ':'] + decimal(port as nat),
{
}

/// A list of values that cannot be made is refused with the error that it meets, and one that can
/// be made is sorted and holds nothing twice.
pub proof fn law_sorted_outcome(
    r: Result<Seq<Seq<char>>, ConfigErrorView>,
    named: Result<Seq<Seq<char>>, ConfigErrorView>,
    x: Seq<char>,
)
    requires
        is_sorted_outcome(r, named),
    ensures
        r is Ok <==> named is Ok,
        named is Err ==> r->Err_0 == named->Err_0,
        named is Ok ==> (r->Ok_0.contains(x) <==> named->Ok_0.contains(x)),
        named is Ok ==> forall|i: int, j: int|
            0 <= i < j < r->Ok_0.len() ==> precedes(#[trigger] r->Ok_0[i], #[trigger] r->Ok_0[j]),
{
}

/// The name server for which a list is refused is one of those written.
pub proof fn law_dns_server_refused(values: Seq<Seq<char>>)
    ensures
        dns_servers_named(values) matches Err(error) ==> exists|i: int|
            0 <= i < values.len() && error == ConfigErrorView::DnsServer(
                trimmed(#[trigger] values[i]),
            ) && host_port(trimmed(values[i])) is Err,
    decreases values.len(),
{
    if values.len() > 0 {
        let rest = values.drop_last();
        law_dns_server_refused(rest);
        if let Err(error) = dns_servers_named(rest) {
            let i = choose|i: int|
                0 <= i < rest.len() && error == ConfigErrorView::DnsServer(
                    trimmed(#[trigger] rest[i]),
                ) && host_port(trimmed(rest[i])) is Err;
            assert(values[i] == rest[i]);
        } else {
            assert(values[values.len() - 1] == values.last());
        }
    }
}

} // verus!
