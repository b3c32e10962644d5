//! Making sense of the services that answer on the network, and choosing one.

use vstd::prelude::*;

use crate::text::{append_decimal, begins_with, same_text, trim_trailing};

verus! {

/// What a list of keys and values says: of equal keys the last one counts.
pub open spec fn pairs_map(pairs: Seq<(String, String)>) -> Map<Seq<char>, Seq<char>>
    decreases pairs.len(),
{
    if pairs.len() == 0 {
        Map::empty()
    } else {
        pairs_map(pairs.drop_last()).insert(pairs.last().0@, pairs.last().1@)
    }
}

/// Whether no key occurs twice.
pub open spec fn unique_keys(pairs: Seq<(String, String)>) -> bool {
    forall|i: int, j: int|
        0 <= i < j < pairs.len() ==> (#[trigger] pairs[i]).0@ != (#[trigger] pairs[j]).0@
}

/// Which keys a list has, and with which values.
proof fn lemma_pairs_map(pairs: Seq<(String, String)>)
    requires
        unique_keys(pairs),
    ensures
        forall|i: int|
            0 <= i < pairs.len() ==> #[trigger] pairs_map(pairs).contains_pair(
                pairs[i].0@,
                pairs[i].1@,
            ),
        forall|key: Seq<char>| #[trigger]
            pairs_map(pairs).contains_key(key) ==> exists|i: int|
                0 <= i < pairs.len() && (#[trigger] pairs[i]).0@ == key,
    decreases pairs.len(),
{
    if pairs.len() > 0 {
        let past = pairs.drop_last();
        assert forall|i: int, j: int| 0 <= i < j < past.len() implies (#[trigger] past[i]).0@ != (
        #[trigger] past[j]).0@ by {
            assert(past[i] == pairs[i] && past[j] == pairs[j]);
        }
        lemma_pairs_map(past);
        assert forall|i: int| 0 <= i < pairs.len() implies #[trigger] pairs_map(
            pairs,
        ).contains_pair(pairs[i].0@, pairs[i].1@) by {
            if i < past.len() {
                assert(past[i] == pairs[i]);
                assert(pairs_map(past).contains_pair(past[i].0@, past[i].1@));
                assert(pairs[i].0@ != pairs[pairs.len() - 1].0@);
            }
        }
        assert forall|key: Seq<char>| #[trigger]
            pairs_map(pairs).contains_key(key) implies exists|i: int|
            0 <= i < pairs.len() && (#[trigger] pairs[i]).0@ == key by {
            if pairs_map(past).contains_key(key) {
                let i = choose|i: int| 0 <= i < past.len() && (#[trigger] past[i]).0@ == key;
                assert(pairs[i].0@ == key);
            } else {
                assert(pairs[pairs.len() - 1].0@ == key);
            }
        }
    }
}

/// The TXT fields of a service.
#[derive(Debug, Clone)]
pub struct TxtRecord {
    entries: Vec<(String, String)>,
}

impl View for TxtRecord {
    type V = Map<Seq<char>, Seq<char>>;

    closed spec fn view(&self) -> Map<Seq<char>, Seq<char>> {
        pairs_map(self.entries@)
    }
}

impl TxtRecord {
    /// No key occurs twice.
    pub closed spec fn wf(&self) -> bool {
        unique_keys(self.entries@)
    }

    /// The fields of a list of keys and values: of equal keys the last one counts.
    pub fn from_pairs(pairs: Vec<(String, String)>) -> (r: Self)
        ensures
            r.wf(),
            r@ == pairs_map(pairs@),
    {
        let mut record = TxtRecord { entries: Vec::new() };
        let mut i: usize = 0;
        while i < pairs.len()
            invariant
                i <= pairs@.len(),
                record.wf(),
                record@ == pairs_map(pairs@.take(i as int)),
            decreases pairs@.len() - i,
        {
            assert(pairs@.take(i + 1).drop_last() =~= pairs@.take(i as int));
            record.insert(pairs[i].0.clone(), pairs[i].1.clone());
            i = i + 1;
        }
        assert(pairs@.take(i as int) =~= pairs@);
        record
    }

    fn insert(&mut self, key: String, value: String)
        requires
            old(self).wf(),
        ensures
            final(self).wf(),
            final(self)@ == old(self)@.insert(key@, value@),
    {
        let ghost before = self.entries@;
        let ghost entry = (key, value);
        proof {
            lemma_pairs_map(before);
        }
        match self.position(key.as_str()) {
            Some(i) => {
                self.entries[i] = (key, value);
                proof {
                    let after = self.entries@;
                    assert(after =~= before.update(i as int, entry));
                    assert forall|a: int, b: int| 0 <= a < b < after.len() implies (
                    #[trigger] after[a]).0@ != (#[trigger] after[b]).0@ by {
                        assert(before[a].0@ != before[b].0@);
                    }
                    lemma_pairs_map(after);
                    assert(pairs_map(after).contains_pair(after[i as int].0@, after[i as int].1@));
                    assert forall|k: Seq<char>|
                        pairs_map(after).contains_key(k) <==> #[trigger] pairs_map(before).insert(
                            entry.0@,
                            entry.1@,
                        ).contains_key(k) by {
                        if pairs_map(before).contains_key(k) {
                            let j = choose|j: int|
                                0 <= j < before.len() && (#[trigger] before[j]).0@ == k;
                            assert(after[j].0@ == k);
                            assert(pairs_map(after).contains_pair(after[j].0@, after[j].1@));
                        }
                        if pairs_map(after).contains_key(k) {
                            let j = choose|j: int|
                                0 <= j < after.len() && (#[trigger] after[j]).0@ == k;
                            assert(before[j].0@ == k);
                            assert(pairs_map(before).contains_pair(before[j].0@, before[j].1@));
                        }
                    }
                    assert forall|k: Seq<char>| #[trigger]
                        pairs_map(after).contains_key(k) implies pairs_map(after)[k] == pairs_map(
                        before,
                    ).insert(entry.0@, entry.1@)[k] by {
                        let j = choose|j: int| 0 <= j < after.len() && (#[trigger] after[j]).0@ == k;
                        assert(pairs_map(after).contains_pair(after[j].0@, after[j].1@));
                        if j != i {
                            assert(before[j] == after[j]);
                            assert(pairs_map(before).contains_pair(before[j].0@, before[j].1@));
                            if j < i {
                                assert(after[j].0@ != after[i as int].0@);
                            } else {
                                assert(after[i as int].0@ != after[j].0@);
                            }
                        }
                    }
                    assert(pairs_map(after) =~= pairs_map(before).insert(entry.0@, entry.1@));
                }
            },
            None => {
                self.entries.push((key, value));
                proof {
                    let after = self.entries@;
                    assert(after.drop_last() =~= before);
                    assert forall|a: int, b: int| 0 <= a < b < after.len() implies (
                    #[trigger] after[a]).0@ != (#[trigger] after[b]).0@ by {
                        if b < before.len() {
                            assert(before[a].0@ != before[b].0@);
                        }
                    }
                }
            },
        }
    }

    fn position(&self, key: &str) -> (r: Option<usize>)
        ensures
            match r {
                Some(i) => i < self.entries@.len() && self.entries@[i as int].0@ == key@,
                None => forall|k: int|
                    0 <= k < self.entries@.len() ==> (#[trigger] self.entries@[k]).0@ != key@,
            },
    {
        let mut i: usize = 0;
        while i < self.entries.len()
            invariant
                i <= self.entries@.len(),
                forall|k: int| 0 <= k < i ==> (#[trigger] self.entries@[k]).0@ != key@,
            decreases self.entries@.len() - i,
        {
            if same_text(self.entries[i].0.as_str(), key) {
                return Some(i);
            }
            i = i + 1;
        }
        None
    }

    /// The value of a field, if it is there.
    pub fn get(&self, key: &str) -> (r: Option<&String>)
        requires
            self.wf(),
        ensures
            match r {
                Some(value) => self@.contains_key(key@) && self@[key@] == value@,
                None => !self@.contains_key(key@),
            },
    {
        proof {
            lemma_pairs_map(self.entries@);
        }
        match self.position(key) {
            Some(i) => {
                assert(pairs_map(self.entries@).contains_pair(
                    self.entries@[i as int].0@,
                    self.entries@[i as int].1@,
                ));
                Some(&self.entries[i].1)
            },
            None => None,
        }
    }
}

/// How long services are given to answer, in milliseconds.
pub const BROWSE_MS: u64 = 8_000;

/// How long to wait for the next answer, in milliseconds, after `elapsed_ms` of
/// browsing. Nothing once the time is up.
pub fn browse_wait(elapsed_ms: u64) -> (r: Option<u64>)
    ensures
        r == (if elapsed_ms < 8_000 {
            Some((8_000 - elapsed_ms) as u64)
        } else {
            None
        }),
{
    if elapsed_ms < BROWSE_MS {
        Some(BROWSE_MS - elapsed_ms)
    } else {
        None
    }
}

/// A server that answered.
#[derive(Debug, Clone)]
pub struct DiscoveredServer {
    pub base_url: String,
    pub register_path: String,
    pub status_path: String,
    pub txt: TxtRecord,
}

/// An address of a host, as text.
#[derive(Debug, Clone)]
pub struct HostAddress {
    pub is_ipv4: bool,
    pub text: String,
}

/// The host to talk to: the first IPv4 address, or else the name without the dots
/// at its end.
pub open spec fn is_host_of(host: Seq<char>, addresses: Seq<HostAddress>, hostname: Seq<char>) -> bool {
    if exists|i: int| 0 <= i < addresses.len() && (#[trigger] addresses[i]).is_ipv4 {
        exists|i: int|
            {
                &&& 0 <= i < addresses.len()
                &&& (#[trigger] addresses[i]).is_ipv4
                &&& addresses[i].text@ == host
                &&& forall|k: int| 0 <= k < i ==> !(#[trigger] addresses[k]).is_ipv4
            }
    } else {
        host == crate::text::without_trailing(hostname, '.')
    }
}

/// The host to talk to.
pub fn resolve_host(addresses: &Vec<HostAddress>, hostname: &str) -> (r: String)
    ensures
        is_host_of(r@, addresses@, hostname@),
{
    let mut i: usize = 0;
    while i < addresses.len()
        invariant
            i <= addresses@.len(),
            forall|k: int| 0 <= k < i ==> !(#[trigger] addresses@[k]).is_ipv4,
        decreases addresses@.len() - i,
    {
        if addresses[i].is_ipv4 {
            assert(addresses@[i as int].is_ipv4);
            return addresses[i].text.clone();
        }
        i = i + 1;
    }
    trim_trailing(hostname, '.').to_owned()
}

/// A path with a slash in front.
pub open spec fn normalized(path: Seq<char>) -> Seq<char> {
    if path.len() > 0 && path[0] == '/' {
        path
    } else {
        seq!['/'] + path
    }
}

/// Puts a slash in front of a path that has none.
pub fn normalize_path(path: String) -> (r: String)
    ensures
        r@ == normalized(path@),
{
    if begins_with(path.as_str(), '/') {
        path
    } else {
        proof {
            reveal_strlit("/");
            assert("/"@ =~= seq!['/']);
        }
        "/".to_owned().concat(path.as_str())
    }
}

/// A normalized path begins with a slash, and normalizing it again changes nothing.
pub proof fn law_normalizing_twice_changes_nothing(path: Seq<char>)
    ensures
        normalized(path).len() > 0 && normalized(path)[0] == '/',
        normalized(normalized(path)) == normalized(path),
{
}

/// The value of a field, or a default.
pub open spec fn field_or(
    txt: Map<Seq<char>, Seq<char>>,
    key: Seq<char>,
    default: Seq<char>,
) -> Seq<char> {
    if txt.contains_key(key) {
        txt[key]
    } else {
        default
    }
}

/// The prefix of the server's interface.
pub open spec fn api_prefix(txt: Map<Seq<char>, Seq<char>>) -> Seq<char> {
    field_or(txt, "api"@, "/api"@)
}

/// Whether `server` is the one at `host` and `port` with the given fields.
pub open spec fn describes_server(
    server: DiscoveredServer,
    host: Seq<char>,
    port: u16,
    txt: Map<Seq<char>, Seq<char>>,
) -> bool {
    &&& server.base_url@ == "http://"@ + host + ":"@ + crate::text::decimal(port as nat)
    &&& server.register_path@ == normalized(
        field_or(txt, "linein_register"@, api_prefix(txt) + "/linein/bridges/register"@),
    )
    &&& server.status_path@ == normalized(
        field_or(txt, "linein_status"@, api_prefix(txt) + "/linein/bridges/{bridge_id}/status"@),
    )
    &&& server.txt@ == txt
    &&& server.txt.wf()
}

/// Describes the server at `host` and `port`.
pub fn describe_server(host: &str, port: u16, txt: TxtRecord) -> (r: DiscoveredServer)
    requires
        txt.wf(),
    ensures
        describes_server(r, host@, port, txt@),
{
    let mut base_url = "http://".to_owned().concat(host).concat(":");
    append_decimal(&mut base_url, port as u64);
    let prefix = match txt.get("api") {
        Some(prefix) => prefix.clone(),
        None => "/api".to_owned(),
    };
    let register_path = match txt.get("linein_register") {
        Some(path) => path.clone(),
        None => prefix.clone().concat("/linein/bridges/register"),
    };
    let status_path = match txt.get("linein_status") {
        Some(path) => path.clone(),
        None => prefix.concat("/linein/bridges/{bridge_id}/status"),
    };
    DiscoveredServer {
        base_url,
        register_path: normalize_path(register_path),
        status_path: normalize_path(status_path),
        txt,
    }
}

/// A server without fields has the documented paths.
pub proof fn law_default_paths(server: DiscoveredServer, host: Seq<char>, port: u16)
    requires
        describes_server(server, host, port, Map::empty()),
    ensures
        server.register_path@ == "/api/linein/bridges/register"@,
        server.status_path@ == "/api/linein/bridges/{bridge_id}/status"@,
{
    reveal_strlit("/api");
    reveal_strlit("/linein/bridges/register");
    reveal_strlit("/linein/bridges/{bridge_id}/status");
    reveal_strlit("/api/linein/bridges/register");
    reveal_strlit("/api/linein/bridges/{bridge_id}/status");
    assert("/api"@ + "/linein/bridges/register"@ =~= "/api/linein/bridges/register"@);
    assert("/api"@ + "/linein/bridges/{bridge_id}/status"@
        =~= "/api/linein/bridges/{bridge_id}/status"@);
}

/// Whether a server has the given value in a field.
pub open spec fn has_field(server: DiscoveredServer, key: Seq<char>, value: Seq<char>) -> bool {
    server.txt@.contains_key(key) && server.txt@[key] == value
}

/// Whether any server has the preferred value in a field.
pub open spec fn any_preferred(
    servers: Seq<DiscoveredServer>,
    key: Seq<char>,
    preferred: Option<Seq<char>>,
) -> bool {
    preferred matches Some(value) && exists|i: int|
        0 <= i < servers.len() && has_field(#[trigger] servers[i], key, value)
}

/// Whether number `i` is the first server with the given value in a field.
pub open spec fn is_first_with(
    servers: Seq<DiscoveredServer>,
    key: Seq<char>,
    value: Seq<char>,
    i: int,
) -> bool {
    &&& 0 <= i < servers.len()
    &&& has_field(servers[i], key, value)
    &&& forall|k: int| 0 <= k < i ==> !has_field(#[trigger] servers[k], key, value)
}

/// Whether number `i` is the server to use. If there is only one, it is that one.
/// Of several it is the first with the preferred MAC address, else the first with
/// the preferred name, else the first.
pub open spec fn is_choice(
    servers: Seq<DiscoveredServer>,
    name: Option<Seq<char>>,
    mac: Option<Seq<char>>,
    i: int,
) -> bool {
    if servers.len() == 1 {
        i == 0
    } else if any_preferred(servers, "mac"@, mac) {
        is_first_with(servers, "mac"@, mac->0, i)
    } else if any_preferred(servers, "name"@, name) {
        is_first_with(servers, "name"@, name->0, i)
    } else {
        i == 0
    }
}

/// Why no server was found.
#[derive(Debug, Clone, Copy, PartialEq, Eq)]
pub enum DiscoveryError {
    /// No service answered.
    NoServices,
}

impl DiscoveryError {
    pub fn message(&self) -> (r: String)
        ensures
            r@ == "no _sonncore._tcp services found"@,
    {
        "no _sonncore._tcp services found".to_owned()
    }
}

fn find_with(servers: &Vec<DiscoveredServer>, key: &str, value: &str) -> (r: Option<usize>)
    requires
        forall|i: int| 0 <= i < servers@.len() ==> (#[trigger] servers@[i]).txt.wf(),
    ensures
        match r {
            Some(i) => is_first_with(servers@, key@, value@, i as int),
            None => forall|k: int|
                0 <= k < servers@.len() ==> !has_field(#[trigger] servers@[k], key@, value@),
        },
{
    let mut i: usize = 0;
    while i < servers.len()
        invariant
            i <= servers@.len(),
            forall|i: int| 0 <= i < servers@.len() ==> (#[trigger] servers@[i]).txt.wf(),
            forall|k: int| 0 <= k < i ==> !has_field(#[trigger] servers@[k], key@, value@),
        decreases servers@.len() - i,
    {
        if let Some(found) = servers[i].txt.get(key) {
            if same_text(found.as_str(), value) {
                return Some(i);
            }
        }
        i = i + 1;
    }
    None
}

/// Chooses among the servers that answered, in the order in which they did.
pub fn choose_server(
    servers: Vec<DiscoveredServer>,
    preferred_name: Option<&str>,
    preferred_mac: Option<&str>,
) -> (r: Result<DiscoveredServer, DiscoveryError>)
    requires
        forall|i: int| 0 <= i < servers@.len() ==> (#[trigger] servers@[i]).txt.wf(),
    ensures
        match r {
            Ok(server) => exists|i: int|
                {
                    &&& 0 <= i < servers@.len()
                    &&& server == #[trigger] servers@[i]
                    &&& is_choice(servers@, crate::text::str_of(preferred_name), crate::text::str_of(preferred_mac), i)
                },
            Err(error) => servers@.len() == 0 && error == DiscoveryError::NoServices,
        },
{
    let mut servers = servers;
    if servers.len() == 0 {
        return Err(DiscoveryError::NoServices);
    }
    if servers.len() == 1 {
        return Ok(servers.remove(0));
    }
    if let Some(mac) = preferred_mac {
        if let Some(i) = find_with(&servers, "mac", mac) {
            return Ok(servers.remove(i));
        }
    }
    if let Some(name) = preferred_name {
        if let Some(i) = find_with(&servers, "name", name) {
            return Ok(servers.remove(i));
        }
    }
    Ok(servers.remove(0))
}

/// The choice is settled: no two servers can be it.
pub proof fn law_choice_is_unique(
    servers: Seq<DiscoveredServer>,
    name: Option<Seq<char>>,
    mac: Option<Seq<char>>,
    i: int,
    j: int,
)
    requires
        is_choice(servers, name, mac, i),
        is_choice(servers, name, mac, j),
    ensures
        i == j,
{
    if i < j && is_first_with(servers, "mac"@, mac->0, i) && is_first_with(
        servers,
        "mac"@,
        mac->0,
        j,
    ) {
        assert(!has_field(servers[i], "mac"@, mac->0));
    }
}

/// Where several servers answer and one has the preferred MAC address, the chosen
/// one has it. Failing that, the same holds of the name.
pub proof fn law_preference_is_honoured(
    servers: Seq<DiscoveredServer>,
    name: Option<Seq<char>>,
    mac: Option<Seq<char>>,
    i: int,
)
    requires
        servers.len() > 1,
        is_choice(servers, name, mac, i),
    ensures
        any_preferred(servers, "mac"@, mac) ==> has_field(servers[i], "mac"@, mac->0),
        !any_preferred(servers, "mac"@, mac) && any_preferred(servers, "name"@, name) ==> has_field(
            servers[i],
            "name"@,
            name->0,
        ),
{
}

/// A field is there exactly if some pair has its key, and its value is that of the last
/// such pair.
#[verifier::spinoff_prover]
#[verifier::rlimit(40)]
pub proof fn law_last_pair_counts(pairs: Seq<(String, String)>, key: Seq<char>)
    ensures
        pairs_map(pairs).contains_key(key) <==> (exists|i: int|
            0 <= i < pairs.len() && (#[trigger] pairs[i]).0@ == key),
        forall|i: int|
            0 <= i < pairs.len() && (#[trigger] pairs[i]).0@ == key && (forall|j: int|
                i < j < pairs.len() ==> (#[trigger] pairs[j]).0@ != key) ==> pairs_map(pairs)[key]
                == pairs[i].1@,
    decreases pairs.len(),
{
    if pairs.len() > 0 {
        let past = pairs.drop_last();
        let end = pairs.len() - 1;
        law_last_pair_counts(past, key);
        assert(forall|i: int| 0 <= i < end ==> past[i] == pairs[i]);
        if pairs_map(past).contains_key(key) {
            let i = choose|i: int| 0 <= i < past.len() && (#[trigger] past[i]).0@ == key;
            assert(pairs[i].0@ == key);
        }
        if exists|i: int| 0 <= i < pairs.len() && (#[trigger] pairs[i]).0@ == key {
            let i = choose|i: int| 0 <= i < pairs.len() && (#[trigger] pairs[i]).0@ == key;
            if i < end {
                assert(past[i].0@ == key);
            }
        }
        assert forall|i: int|
            0 <= i < pairs.len() && (#[trigger] pairs[i]).0@ == key && (forall|j: int|
                i < j < pairs.len() ==> (#[trigger] pairs[j]).0@ != key) implies pairs_map(
            pairs,
        )[key] == pairs[i].1@ by {
            if i < end {
                assert(pairs[end].0@ != key);
                assert(past[i].0@ == key);
                assert forall|j: int| i < j < past.len() implies (#[trigger] past[j]).0@ != key by {
                    assert(pairs[j].0@ != key);
                }
            }
        }
    }
}

/// The host is the address of the first IPv4 address. Without any it is the name, without
/// the dots at its end.
pub proof fn law_host_is_ipv4_or_the_name(
    host: Seq<char>,
    addresses: Seq<HostAddress>,
    hostname: Seq<char>,
    i: int,
)
    requires
        is_host_of(host, addresses, hostname),
    ensures
        0 <= i < addresses.len() && addresses[i].is_ipv4 && (forall|k: int|
            0 <= k < i ==> !(#[trigger] addresses[k]).is_ipv4) ==> host == addresses[i].text@,
        (forall|k: int| 0 <= k < addresses.len() ==> !(#[trigger] addresses[k]).is_ipv4) ==> {
            &&& host.len() <= hostname.len()
            &&& host == hostname.take(host.len() as int)
            &&& host.len() > 0 ==> host.last() != '.'
            &&& forall|k: int| host.len() <= k < hostname.len() ==> #[trigger] hostname[k] == '.'
        },
{
    if forall|k: int| 0 <= k < addresses.len() ==> !(#[trigger] addresses[k]).is_ipv4 {
        crate::text::law_only_the_run_is_removed(hostname, '.');
        assert(host =~= hostname.take(host.len() as int));
    }
}

/// A path that begins with a slash stays as it is; any other gets one slash in front and
/// is kept behind it.
pub proof fn law_one_slash_is_put_in_front(path: Seq<char>)
    ensures
        path.len() > 0 && path[0] == '/' ==> normalized(path) == path,
        path.len() == 0 || path[0] != '/' ==> normalized(path).len() == path.len() + 1
            && normalized(path)[0] == '/' && normalized(path).skip(1) == path,
{
    if path.len() == 0 || path[0] != '/' {
        assert(normalized(path).skip(1) =~= path);
    }
}

/// A server is reached over HTTP at its host and port. Its paths are the fields that set
/// them, or else lie below the field `api`, or below `/api` without that.
pub proof fn law_paths_follow_the_fields(
    server: DiscoveredServer,
    host: Seq<char>,
    port: u16,
    txt: Map<Seq<char>, Seq<char>>,
)
    requires
        describes_server(server, host, port, txt),
    ensures
        server.base_url@ == "http://"@ + host + ":"@ + crate::text::decimal(port as nat),
        server.txt@ == txt,
        txt.contains_key("linein_register"@) ==> server.register_path@ == normalized(
            txt["linein_register"@],
        ),
        txt.contains_key("linein_status"@) ==> server.status_path@ == normalized(
            txt["linein_status"@],
        ),
        !txt.contains_key("linein_register"@) && txt.contains_key("api"@)
            ==> server.register_path@ == normalized(txt["api"@] + "/linein/bridges/register"@),
        !txt.contains_key("linein_status"@) && txt.contains_key("api"@) ==> server.status_path@
            == normalized(txt["api"@] + "/linein/bridges/{bridge_id}/status"@),
        !txt.contains_key("linein_register"@) && !txt.contains_key("api"@)
            ==> server.register_path@ == "/api/linein/bridges/register"@,
        !txt.contains_key("linein_status"@) && !txt.contains_key("api"@) ==> server.status_path@
            == "/api/linein/bridges/{bridge_id}/status"@,
{
    reveal_strlit("/api");
    reveal_strlit("/linein/bridges/register");
    reveal_strlit("/linein/bridges/{bridge_id}/status");
    reveal_strlit("/api/linein/bridges/register");
    reveal_strlit("/api/linein/bridges/{bridge_id}/status");
    assert("/api"@ + "/linein/bridges/register"@ =~= "/api/linein/bridges/register"@);
    assert("/api"@ + "/linein/bridges/{bridge_id}/status"@
        =~= "/api/linein/bridges/{bridge_id}/status"@);
}

/// Whether the TXT field `key` of a server is there and is `value`.
pub open spec fn field_is(server: DiscoveredServer, key: Seq<char>, value: Seq<char>) -> bool {
    server.txt@.contains_key(key) && server.txt@[key] == value
}

/// Which of several servers is chosen, in terms of their fields. One with the preferred
/// MAC address goes before all others; where none has it, one with the preferred name; of
/// equals the first, and the first of all where nothing fits. A single server is chosen
/// whatever it is.
#[verifier::spinoff_prover]
#[verifier::rlimit(40)]
pub proof fn law_which_server_is_chosen(
    servers: Seq<DiscoveredServer>,
    name: Option<Seq<char>>,
    mac: Option<Seq<char>>,
    i: int,
    k: int,
)
    requires
        servers.len() > 0,
        is_choice(servers, name, mac, i),
        0 <= k < servers.len(),
    ensures
        0 <= i < servers.len(),
        servers.len() == 1 ==> i == 0,
        servers.len() > 1 && mac is Some && field_is(servers[k], "mac"@, mac->0) ==> i <= k
            && field_is(servers[i], "mac"@, mac->0),
        servers.len() > 1 && (mac is None || forall|j: int|
            0 <= j < servers.len() ==> !field_is(#[trigger] servers[j], "mac"@, mac->0)) && name
            is Some && field_is(servers[k], "name"@, name->0) ==> i <= k && field_is(
            servers[i],
            "name"@,
            name->0,
        ),
        (mac is None || forall|j: int|
            0 <= j < servers.len() ==> !field_is(#[trigger] servers[j], "mac"@, mac->0)) && (name
            is None || forall|j: int|
            0 <= j < servers.len() ==> !field_is(#[trigger] servers[j], "name"@, name->0)) ==> i
            == 0,
{
    assert(forall|j: int, key: Seq<char>, value: Seq<char>|
        0 <= j < servers.len() ==> #[trigger] has_field(servers[j], key, value) == field_is(
            servers[j],
            key,
            value,
        ));
    if any_preferred(servers, "mac"@, mac) {
        let j = choose|j: int|
            0 <= j < servers.len() && has_field(#[trigger] servers[j], "mac"@, mac->0);
        assert(field_is(servers[j], "mac"@, mac->0));
    } else if mac is Some {
        assert(!has_field(servers[k], "mac"@, mac->0));
    }
    if any_preferred(servers, "name"@, name) {
        let j = choose|j: int|
            0 <= j < servers.len() && has_field(#[trigger] servers[j], "name"@, name->0);
        assert(field_is(servers[j], "name"@, name->0));
    } else if name is Some {
        assert(!has_field(servers[k], "name"@, name->0));
    }
}

} // verus!
