//! The routes and the name servers of the machine while all its traffic goes
//! through the tunnel: the scripts that change them and that bring them back.

use crate::session::{lemma_four_parts, lemma_octet};
use crate::text::{
    law_decimal_round_trip, law_split_at_character, law_trim_takes_surrounding_space,
    lemma_dec_chars, NumError,
    chars_of, dec, find_char, from_utf8_lossy, is_white, lemma_index_of_char, lossy_text,
    parse_number, push_chars, push_dec, read_number, split_all, split_char, split_pieces,
    string_of, texts, trim, trim_start, trimmed, views, white_prefix,
};
use vstd::prelude::*;

verus! {

// ---------------------------------------------------------------------------
// Numbers, addresses and lists in scripts
// ---------------------------------------------------------------------------

/// A whole number in decimal, with its sign if it is negative.
pub open spec fn signed_dec(n: int) -> Seq<char> {
    if n < 0 {
        seq!['-'] + dec((-n) as nat)
    } else {
        dec(n as nat)
    }
}

/// An IPv4 address in dotted decimal.
pub open spec fn ip_text(ip: Seq<u8>) -> Seq<char> {
    dec(ip[0] as nat) + "."@ + dec(ip[1] as nat) + "."@ + dec(ip[2] as nat) + "."@ + dec(
        ip[3] as nat,
    )
}

/// The texts of a list, with `separator` between them.
pub open spec fn joined(list: Seq<Seq<char>>, separator: Seq<char>) -> Seq<char>
    decreases list.len(),
{
    if list.len() == 0 {
        seq![]
    } else if list.len() == 1 {
        list[0]
    } else {
        joined(list.drop_last(), separator) + separator + list.last()
    }
}

/// Appends a whole number.
fn push_signed(out: &mut String, n: i32)
    ensures
        final(out)@ == old(out)@ + signed_dec(n as int),
{
    if n < 0 {
        let magnitude: u64 = (-(n as i64)) as u64;
        out.push('-');
        push_dec(out, magnitude);
        assert(out@ =~= old(out)@ + (seq!['-'] + dec(magnitude as nat)));
    } else {
        push_dec(out, n as u64);
    }
}

/// Appends an IPv4 address.
fn push_ip(out: &mut String, ip: [u8; 4])
    ensures
        final(out)@ == old(out)@ + ip_text(ip@),
{
    push_dec(out, ip[0] as u64);
    out.append(".");
    push_dec(out, ip[1] as u64);
    out.append(".");
    push_dec(out, ip[2] as u64);
    out.append(".");
    push_dec(out, ip[3] as u64);
    assert(out@ =~= old(out)@ + ip_text(ip@));
}

/// Appends the texts of a list with `separator` between them.
fn push_joined(out: &mut String, list: &Vec<String>, separator: &str)
    ensures
        final(out)@ == old(out)@ + joined(texts(list@), separator@),
{
    let ghost start = out@;
    assert(texts(list@).take(0) =~= Seq::<Seq<char>>::empty());
    for i in 0..list.len()
        invariant
            out@ == start + joined(texts(list@).take(i as int), separator@),
    {
        if i > 0 {
            out.append(separator);
        }
        out.append(list[i].as_str());
        proof {
            let longer = texts(list@).take(i + 1);
            assert(longer.drop_last() =~= texts(list@).take(i as int));
            assert(longer.last() == list@[i as int]@);
            assert(out@ =~= start + joined(longer, separator@));
        }
    }
    assert(texts(list@).take(list@.len() as int) =~= texts(list@));
}

// ---------------------------------------------------------------------------
// What the machine answers
// ---------------------------------------------------------------------------

/// The script that prints the interface and the gateway of the default route.
pub const ROUTE_QUERY: &'static str = "$r=Get-NetRoute -AddressFamily IPv4 -DestinationPrefix '0.0.0.0/0' | Sort-Object RouteMetric | Select-Object -First 1; \"$($r.InterfaceIndex)|$($r.NextHop)\"";

/// The interface and the gateway in the answer.
pub open spec fn route_in(answer: Seq<char>) -> Result<(u32, Seq<char>), Seq<char>> {
    match split_char(trim(answer), '|') {
        None => Err("failed to read the physical default route"@),
        Some((index, gateway)) => match parse_number(index, 10, u32::MAX as nat) {
            Ok(n) => Ok((n as u32, gateway)),
            Err(e) => Err(e.words()),
        },
    }
}

/// The interface and the gateway in the answer.
pub fn parse_route(answer: &str) -> (result: Result<(u32, String), String>)
    ensures
        match result {
            Ok((index, gateway)) => route_in(answer@) == Ok::<(u32, Seq<char>), Seq<char>>(
                (index, gateway@),
            ),
            Err(e) => route_in(answer@) == Err::<(u32, Seq<char>), Seq<char>>(e@),
        },
{
    let chars = chars_of(answer);
    let line = trimmed(chars.as_slice());
    assert(line@.skip(0) =~= line@);
    let at = find_char(line, 0, '|');
    if at >= line.len() {
        return Err("failed to read the physical default route".to_owned());
    }
    let index = vstd::slice::slice_subrange(line, 0, at);
    let gateway = vstd::slice::slice_subrange(line, at + 1, line.len());
    assert(index@ =~= line@.take(at as int));
    assert(gateway@ =~= line@.skip(at + 1));
    match read_number(index, 10, 0xffff_ffff) {
        Ok(n) => Ok((n as u32, string_of(gateway))),
        Err(e) => Err(e.message()),
    }
}

/// The script that prints the name servers of an interface.
pub open spec fn dns_query_text(index: nat) -> Seq<char> {
    "(Get-DnsClientServerAddress -InterfaceIndex "@ + dec(index)
        + " -AddressFamily IPv4).ServerAddresses -join ','"@
}

/// The script that prints the name servers of an interface.
pub fn dns_query(index: u32) -> (script: String)
    ensures
        script@ == dns_query_text(index as nat),
{
    let mut script = "(Get-DnsClientServerAddress -InterfaceIndex ".to_owned();
    push_dec(&mut script, index as u64);
    script.append(" -AddressFamily IPv4).ServerAddresses -join ','");
    script
}

/// The texts of a list that are not empty, in order.
pub open spec fn non_empty(list: Seq<Seq<char>>) -> Seq<Seq<char>>
    decreases list.len(),
{
    if list.len() == 0 {
        seq![]
    } else if list.last().len() == 0 {
        non_empty(list.drop_last())
    } else {
        non_empty(list.drop_last()).push(list.last())
    }
}

/// The name servers in the answer.
pub open spec fn dns_in(answer: Seq<char>) -> Seq<Seq<char>> {
    non_empty(split_all(trim(answer), ','))
}

/// The name servers in the answer.
pub fn parse_dns(answer: &str) -> (servers: Vec<String>)
    ensures
        texts(servers@) == dns_in(answer@),
{
    let chars = chars_of(answer);
    let pieces = split_pieces(trimmed(chars.as_slice()), ',');
    let mut servers: Vec<String> = Vec::new();
    assert(texts(servers@) =~= Seq::<Seq<char>>::empty());
    for i in 0..pieces.len()
        invariant
            texts(servers@) == non_empty(views(pieces@).take(i as int)),
    {
        let ghost before = servers@;
        proof {
            let longer = views(pieces@).take(i + 1);
            assert(longer.drop_last() =~= views(pieces@).take(i as int));
            assert(longer.last() == pieces@[i as int]@);
        }
        if pieces[i].len() > 0 {
            let server = string_of(pieces[i].as_slice());
            servers.push(server);
            assert(texts(servers@) =~= texts(before).push(server@));
        }
    }
    assert(views(pieces@).take(pieces@.len() as int) =~= views(pieces@));
    servers
}

/// What a script put out, or the reason that it gave where it failed.
pub fn script_output(success: bool, stdout: &[u8], stderr: &[u8]) -> (result: Result<
    String,
    String,
>)
    ensures
        success ==> (result matches Ok(text) && text@ == lossy_text(stdout@)),
        !success ==> (result matches Err(e) && e@ == "PowerShell network configuration failed: "@
            + trim(lossy_text(stderr@))),
{
    if !success {
        let reason = from_utf8_lossy(stderr);
        let reason = chars_of(reason.as_str());
        let mut message = "PowerShell network configuration failed: ".to_owned();
        push_chars(&mut message, trimmed(reason.as_slice()));
        return Err(message);
    }
    Ok(from_utf8_lossy(stdout))
}

// ---------------------------------------------------------------------------
// Changing the routes and bringing them back
// ---------------------------------------------------------------------------

/// What was changed, and what it takes to bring it back.
pub struct RouteGuard {
    pub tun_index: i32,
    pub physical_index: u32,
    pub server_ip: [u8; 4],
    pub old_dns: Vec<String>,
}

/// A route: what it is for, the interface it goes over, and the next hop.
pub ghost struct Route {
    pub prefix: Seq<char>,
    pub index: Seq<char>,
    pub hop: Seq<char>,
}

/// The command that adds a route.
pub open spec fn new_route(route: Route) -> Seq<char> {
    "New-NetRoute -PolicyStore ActiveStore -DestinationPrefix '"@ + route.prefix
        + "' -InterfaceIndex "@ + route.index + " -NextHop '"@ + route.hop
        + "' -RouteMetric 1 -ErrorAction Stop | Out-Null; "@
}

/// The command that removes the routes of an interface for some prefixes.
pub open spec fn remove_routes(prefixes: Seq<Seq<char>>, index: Seq<char>) -> Seq<char> {
    "Remove-NetRoute -PolicyStore ActiveStore -DestinationPrefix '"@ + joined(prefixes, "','"@)
        + "' -InterfaceIndex "@ + index
        + " -Confirm:$false -ErrorAction SilentlyContinue; "@
}

/// The two halves of each address space.
pub open spec fn all_prefixes() -> Seq<Seq<char>> {
    seq!["0.0.0.0/1"@, "128.0.0.0/1"@, "::/1"@, "8000::/1"@]
}

impl RouteGuard {
    /// The interface of the tunnel.
    pub open spec fn tun(&self) -> Seq<char> {
        signed_dec(self.tun_index as int)
    }

    /// The physical interface.
    pub open spec fn physical(&self) -> Seq<char> {
        dec(self.physical_index as nat)
    }

    /// The prefix of the server alone.
    pub open spec fn server_prefix(&self) -> Seq<char> {
        ip_text(self.server_ip@) + "/32"@
    }

    /// The server keeps its route over the physical interface, and everything
    /// else goes to the tunnel.
    pub open spec fn routes(&self, gateway: Seq<char>) -> Seq<Route> {
        seq![
            Route { prefix: self.server_prefix(), index: self.physical(), hop: gateway },
            Route { prefix: all_prefixes()[0], index: self.tun(), hop: "0.0.0.0"@ },
            Route { prefix: all_prefixes()[1], index: self.tun(), hop: "0.0.0.0"@ },
            Route { prefix: all_prefixes()[2], index: self.tun(), hop: "::"@ },
            Route { prefix: all_prefixes()[3], index: self.tun(), hop: "::"@ },
        ]
    }

    /// The routes are there, the tunnel has an address for IPv6, and names are
    /// asked at `dns`.
    pub open spec fn install_text(&self, gateway: Seq<char>, dns: Seq<u8>) -> Seq<char> {
        let routes = self.routes(gateway);
        new_route(routes[0]) + new_route(routes[1]) + new_route(routes[2])
            + "New-NetIPAddress -PolicyStore ActiveStore -InterfaceIndex "@ + self.tun()
            + " -IPAddress 'fd00::2' -PrefixLength 126 -ErrorAction SilentlyContinue | Out-Null; "@
            + new_route(routes[3]) + new_route(routes[4])
            + "Set-DnsClientServerAddress -InterfaceIndex "@ + self.physical()
            + " -ServerAddresses '"@ + ip_text(dns) + "' -ErrorAction Stop"@
    }

    /// The name servers are those from before, or the ones of the network where
    /// there were none.
    pub open spec fn restore_dns_text(&self) -> Seq<char> {
        let head = "Set-DnsClientServerAddress -InterfaceIndex "@ + self.physical();
        if self.old_dns@.len() == 0 {
            head + " -ResetServerAddresses -ErrorAction SilentlyContinue"@
        } else {
            head + " -ServerAddresses @('"@ + joined(texts(self.old_dns@), "','"@)
                + "') -ErrorAction SilentlyContinue"@
        }
    }

    /// What is removed: prefixes, each with the interface.
    pub open spec fn removed(&self) -> Seq<(Seq<Seq<char>>, Seq<char>)> {
        seq![(all_prefixes(), self.tun()), (seq![self.server_prefix()], self.physical())]
    }

    /// The routes are gone, and the name servers are back.
    pub open spec fn removal_text(&self) -> Seq<char> {
        let removed = self.removed();
        remove_routes(removed[0].0, removed[0].1) + remove_routes(removed[1].0, removed[1].1)
            + self.restore_dns_text()
    }

    /// The interface of the tunnel.
    fn tun_text(&self) -> (text: String)
        ensures
            text@ == self.tun(),
    {
        let mut text = String::new();
        push_signed(&mut text, self.tun_index);
        assert(text@ =~= self.tun());
        text
    }

    /// The physical interface.
    fn physical_text(&self) -> (text: String)
        ensures
            text@ == self.physical(),
    {
        let mut text = String::new();
        push_dec(&mut text, self.physical_index as u64);
        assert(text@ =~= self.physical());
        text
    }

    /// The prefix of the server alone.
    fn server_text(&self) -> (text: String)
        ensures
            text@ == self.server_prefix(),
    {
        let mut text = String::new();
        push_ip(&mut text, self.server_ip);
        text.append("/32");
        assert(text@ =~= self.server_prefix());
        text
    }

    /// The script that sends all traffic through the tunnel.
    pub fn install_script(&self, gateway: &str, dns: [u8; 4]) -> (script: String)
        ensures
            script@ == self.install_text(gateway@, dns@),
    {
        let tun = self.tun_text();
        let physical = self.physical_text();
        let server = self.server_text();
        let mut script = String::new();
        push_route(&mut script, server.as_str(), physical.as_str(), gateway);
        push_route(&mut script, "0.0.0.0/1", tun.as_str(), "0.0.0.0");
        push_route(&mut script, "128.0.0.0/1", tun.as_str(), "0.0.0.0");
        script.append("New-NetIPAddress -PolicyStore ActiveStore -InterfaceIndex ");
        script.append(tun.as_str());
        script.append(
            " -IPAddress 'fd00::2' -PrefixLength 126 -ErrorAction SilentlyContinue | Out-Null; ",
        );
        push_route(&mut script, "::/1", tun.as_str(), "::");
        push_route(&mut script, "8000::/1", tun.as_str(), "::");
        script.append("Set-DnsClientServerAddress -InterfaceIndex ");
        script.append(physical.as_str());
        script.append(" -ServerAddresses '");
        push_ip(&mut script, dns);
        script.append("' -ErrorAction Stop");
        assert(script@ =~= self.install_text(gateway@, dns@));
        script
    }

    /// The script that brings the routes and the name servers back.
    pub fn removal_script(&self) -> (script: String)
        ensures
            script@ == self.removal_text(),
    {
        let tun = self.tun_text();
        let physical = self.physical_text();
        let server = self.server_text();
        let mut script = String::new();
        let mut halves: Vec<String> = Vec::new();
        halves.push("0.0.0.0/1".to_owned());
        halves.push("128.0.0.0/1".to_owned());
        halves.push("::/1".to_owned());
        halves.push("8000::/1".to_owned());
        assert(texts(halves@) =~= all_prefixes());
        push_removal(&mut script, &halves, tun.as_str());
        let mut one: Vec<String> = Vec::new();
        one.push(server);
        assert(texts(one@) =~= seq![self.server_prefix()]);
        push_removal(&mut script, &one, physical.as_str());
        script.append("Set-DnsClientServerAddress -InterfaceIndex ");
        script.append(physical.as_str());
        if self.old_dns.len() == 0 {
            script.append(" -ResetServerAddresses -ErrorAction SilentlyContinue");
        } else {
            script.append(" -ServerAddresses @('");
            push_joined(&mut script, &self.old_dns, "','");
            script.append("') -ErrorAction SilentlyContinue");
        }
        assert(script@ =~= self.removal_text());
        script
    }
}

/// Appends the command that adds a route.
fn push_route(out: &mut String, prefix: &str, index: &str, hop: &str)
    ensures
        final(out)@ == old(out)@ + new_route(
            (Route { prefix: prefix@, index: index@, hop: hop@ }),
        ),
{
    out.append("New-NetRoute -PolicyStore ActiveStore -DestinationPrefix '");
    out.append(prefix);
    out.append("' -InterfaceIndex ");
    out.append(index);
    out.append(" -NextHop '");
    out.append(hop);
    out.append("' -RouteMetric 1 -ErrorAction Stop | Out-Null; ");
    proof {
        let route = Route { prefix: prefix@, index: index@, hop: hop@ };
        assert(out@ =~= old(out)@ + new_route(route));
    }
}

/// Appends the command that removes the routes of an interface.
fn push_removal(out: &mut String, prefixes: &Vec<String>, index: &str)
    ensures
        final(out)@ == old(out)@ + remove_routes(texts(prefixes@), index@),
{
    out.append("Remove-NetRoute -PolicyStore ActiveStore -DestinationPrefix '");
    push_joined(out, prefixes, "','");
    out.append("' -InterfaceIndex ");
    out.append(index);
    out.append(" -Confirm:$false -ErrorAction SilentlyContinue; ");
    assert(out@ =~= old(out)@ + remove_routes(texts(prefixes@), index@));
}

// ---------------------------------------------------------------------------
// Laws
// ---------------------------------------------------------------------------

/// The route is for this prefix and over this interface.
pub open spec fn is_for(route: Route, prefix: Seq<char>, index: Seq<char>) -> bool {
    route.prefix == prefix && route.index == index
}

/// Removing these prefixes from this interface takes the route away.
pub open spec fn takes_away(removed: (Seq<Seq<char>>, Seq<char>), route: Route) -> bool {
    exists|k: int| 0 <= k < removed.0.len() && is_for(route, #[trigger] removed.0[k], removed.1)
}

/// Every route that was added is removed, from the interface it was added to.
pub proof fn law_added_routes_are_removed(guard: RouteGuard, gateway: Seq<char>, i: int)
    requires
        0 <= i < guard.routes(gateway).len(),
    ensures
        exists|j: int|
            0 <= j < guard.removed().len() && #[trigger] takes_away(
                guard.removed()[j],
                guard.routes(gateway)[i],
            ),
{
    let route = guard.routes(gateway)[i];
    let removed = guard.removed();
    if i == 0 {
        assert(is_for(route, removed[1].0[0], removed[1].1));
        assert(takes_away(removed[1], route));
    } else {
        assert(is_for(route, removed[0].0[i - 1], removed[0].1));
        assert(takes_away(removed[0], route));
    }
}

/// Nothing is removed but routes that were added.
pub proof fn law_only_added_routes_are_removed(
    guard: RouteGuard,
    gateway: Seq<char>,
    j: int,
    k: int,
)
    requires
        0 <= j < guard.removed().len(),
        0 <= k < guard.removed()[j].0.len(),
    ensures
        exists|i: int|
            0 <= i < guard.routes(gateway).len() && #[trigger] is_for(
                guard.routes(gateway)[i],
                guard.removed()[j].0[k],
                guard.removed()[j].1,
            ),
{
    let routes = guard.routes(gateway);
    let removed = guard.removed();
    if j == 0 {
        assert(is_for(routes[k + 1], removed[0].0[k], removed[0].1));
    } else {
        assert(is_for(routes[0], removed[1].0[k], removed[1].1));
    }
}

/// The text of a name server as the answers hold it.
pub open spec fn is_server(server: Seq<char>) -> bool {
    server.len() > 0 && forall|i: int|
        0 <= i < server.len() ==> !is_white(#[trigger] server[i]) && server[i] != ','
}

/// The name servers that the machine prints are the ones that are kept for
/// bringing them back, one for one.
pub proof fn law_name_servers_are_kept(servers: Seq<Seq<char>>)
    requires
        forall|i: int| 0 <= i < servers.len() ==> is_server(#[trigger] servers[i]),
    ensures
        dns_in(joined(servers, ","@)) == servers,
{
    reveal_strlit(",");
    let answer = joined(servers, ","@);
    assert(","@ =~= seq![',']);
    if servers.len() == 0 {
        assert(trim(answer) =~= answer);
        assert(split_all(answer, ',') =~= seq![answer]);
        assert(seq![answer].drop_last() =~= Seq::<Seq<char>>::empty());
        assert(non_empty(seq![answer].drop_last()) =~= Seq::<Seq<char>>::empty());
        assert(dns_in(answer) =~= servers);
    } else {
        lemma_joined_ends(servers);
        assert(white_prefix(answer) == 0);
        assert(trim_start(answer) =~= answer);
        assert(trim(answer) == answer);
        lemma_split_joined(servers);
        lemma_all_non_empty(servers);
    }
}

/// A list of name servers begins and ends with a character that is not white.
proof fn lemma_joined_ends(servers: Seq<Seq<char>>)
    requires
        servers.len() > 0,
        forall|i: int| 0 <= i < servers.len() ==> is_server(#[trigger] servers[i]),
    ensures
        joined(servers, seq![',']).len() > 0,
        !is_white(joined(servers, seq![','])[0]),
        !is_white(joined(servers, seq![',']).last()),
    decreases servers.len(),
{
    let last = servers.last();
    assert(is_server(last));
    assert(!is_white(last[0]) && !is_white(last[last.len() - 1]));
    if servers.len() > 1 {
        let front = servers.drop_last();
        assert forall|i: int| 0 <= i < front.len() implies is_server(#[trigger] front[i]) by {
            assert(front[i] == servers[i]);
        }
        lemma_joined_ends(front);
        let whole = joined(servers, seq![',']);
        assert(whole[0] == joined(front, seq![','])[0]);
        assert(whole.last() == last.last());
    }
}

/// The first of a list stands at the front.
proof fn lemma_joined_front(list: Seq<Seq<char>>, separator: Seq<char>)
    requires
        list.len() > 1,
    ensures
        joined(list, separator) == list[0] + separator + joined(list.skip(1), separator),
    decreases list.len(),
{
    let rest = list.skip(1);
    if list.len() == 2 {
        assert(joined(list.drop_last(), separator) == list[0]);
        assert(joined(rest, separator) == list[1]);
    } else {
        lemma_joined_front(list.drop_last(), separator);
        assert(list.drop_last().skip(1) =~= rest.drop_last());
        assert(joined(list, separator) =~= list[0] + separator + joined(rest, separator));
    }
}

/// Splitting a list at the commas gives the list.
proof fn lemma_split_joined(servers: Seq<Seq<char>>)
    requires
        servers.len() > 0,
        forall|i: int| 0 <= i < servers.len() ==> is_server(#[trigger] servers[i]),
    ensures
        split_all(joined(servers, seq![',']), ',') == servers,
    decreases servers.len(),
{
    let whole = joined(servers, seq![',']);
    let first = servers[0];
    let n = first.len() as int;
    assert(is_server(first));
    if servers.len() == 1 {
        assert forall|i: int| 0 <= i < n implies #[trigger] whole[i] != ',' by {
            assert(!is_white(first[i]) && first[i] != ',');
        }
        lemma_index_of_char(whole, ',', n);
        assert(servers =~= seq![first]);
    } else {
        let rest = servers.skip(1);
        lemma_joined_front(servers, seq![',']);
        assert forall|i: int| 0 <= i < n implies #[trigger] whole[i] != ',' by {
            assert(whole[i] == first[i]);
            assert(!is_white(first[i]) && first[i] != ',');
        }
        assert(whole[n] == ',');
        lemma_index_of_char(whole, ',', n);
        assert(whole.take(n) =~= first);
        assert(whole.skip(n + 1) =~= joined(rest, seq![',']));
        assert forall|i: int| 0 <= i < rest.len() implies is_server(#[trigger] rest[i]) by {
            assert(rest[i] == servers[i + 1]);
        }
        lemma_split_joined(rest);
        assert(seq![first] + rest =~= servers);
    }
}

/// Nothing is dropped from a list without empty texts.
proof fn lemma_all_non_empty(servers: Seq<Seq<char>>)
    requires
        forall|i: int| 0 <= i < servers.len() ==> is_server(#[trigger] servers[i]),
    ensures
        non_empty(servers) == servers,
    decreases servers.len(),
{
    if servers.len() > 0 {
        let front = servers.drop_last();
        assert forall|i: int| 0 <= i < front.len() implies is_server(#[trigger] front[i]) by {
            assert(front[i] == servers[i]);
        }
        lemma_all_non_empty(front);
        assert(is_server(servers.last()));
        assert(front.push(servers.last()) =~= servers);
    }
}

/// A whole number, written with its sign, is read back.
pub proof fn law_signed_number_is_read_back(n: i32)
    ensures
        n >= 0 ==> parse_number(signed_dec(n as int), 10, 0x8000_0000) == Ok::<nat, NumError>(
            n as nat,
        ),
        n < 0 ==> signed_dec(n as int)[0] == '-' && parse_number(
            signed_dec(n as int).skip(1),
            10,
            0x8000_0000,
        ) == Ok::<nat, NumError>((-n) as nat),
{
    if n < 0 {
        law_decimal_round_trip((-n) as nat, 0x8000_0000);
        assert(signed_dec(n as int).skip(1) =~= dec((-n) as nat));
    } else {
        law_decimal_round_trip(n as nat, 0x8000_0000);
    }
}

/// The text of an IPv4 address is its four numbers between dots.
pub proof fn law_ip_text_is_four_numbers(ip: Seq<u8>)
    requires
        ip.len() == 4,
    ensures
        ({
            let parts = split_all(ip_text(ip), '.');
            &&& parts.len() == 4
            &&& parse_number(parts[0], 10, 255) == Ok::<nat, NumError>(ip[0] as nat)
            &&& parse_number(parts[1], 10, 255) == Ok::<nat, NumError>(ip[1] as nat)
            &&& parse_number(parts[2], 10, 255) == Ok::<nat, NumError>(ip[2] as nat)
            &&& parse_number(parts[3], 10, 255) == Ok::<nat, NumError>(ip[3] as nat)
        }),
{
    reveal_strlit(".");
    assert("."@ =~= seq!['.']);
    let a = dec(ip[0] as nat);
    let b = dec(ip[1] as nat);
    let c = dec(ip[2] as nat);
    let d = dec(ip[3] as nat);
    lemma_octet(ip[0]);
    lemma_octet(ip[1]);
    lemma_octet(ip[2]);
    lemma_octet(ip[3]);
    lemma_four_parts(a, b, c, d);
}

/// A list is joined with the separator between each two of its texts, however many
/// there are.
pub proof fn law_joining_keeps_every_text(
    list: Seq<Seq<char>>,
    last: Seq<char>,
    separator: Seq<char>,
)
    ensures
        joined(Seq::<Seq<char>>::empty(), separator) == Seq::<char>::empty(),
        joined(seq![last], separator) == last,
        list.len() > 0 ==> joined(list.push(last), separator) == joined(list, separator) + separator
            + last,
{
    assert(list.push(last).drop_last() =~= list);
}

/// The script of [`RouteGuard::install_script`]: the server over the physical
/// interface and the gateway, each half of both address spaces over the tunnel,
/// and the given name server for the physical interface.
pub proof fn law_install_script_adds_all_routes(
    guard: RouteGuard,
    gateway: &str,
    dns: [u8; 4],
    script: String,
)
    requires
        call_ensures(RouteGuard::install_script, (&guard, gateway, dns), script),
    ensures
        ({
            let tun = signed_dec(guard.tun_index as int);
            let physical = dec(guard.physical_index as nat);
            let adding = |prefix: Seq<char>, index: Seq<char>, hop: Seq<char>|
                "New-NetRoute -PolicyStore ActiveStore -DestinationPrefix '"@ + prefix
                    + "' -InterfaceIndex "@ + index + " -NextHop '"@ + hop
                    + "' -RouteMetric 1 -ErrorAction Stop | Out-Null; "@;
            script@ == adding(ip_text(guard.server_ip@) + "/32"@, physical, gateway@) + adding(
                "0.0.0.0/1"@,
                tun,
                "0.0.0.0"@,
            ) + adding("128.0.0.0/1"@, tun, "0.0.0.0"@)
                + "New-NetIPAddress -PolicyStore ActiveStore -InterfaceIndex "@ + tun
                + " -IPAddress 'fd00::2' -PrefixLength 126 -ErrorAction SilentlyContinue | Out-Null; "@
                + adding("::/1"@, tun, "::"@) + adding("8000::/1"@, tun, "::"@)
                + "Set-DnsClientServerAddress -InterfaceIndex "@ + physical
                + " -ServerAddresses '"@ + ip_text(dns@) + "' -ErrorAction Stop"@
        }),
{
}

/// The script of [`RouteGuard::removal_script`] removes the halves of both address
/// spaces from the tunnel and the server from the physical interface, and then
/// brings the name servers back.
pub proof fn law_removal_script_removes_all_routes(guard: RouteGuard, script: String)
    requires
        call_ensures(RouteGuard::removal_script, (&guard,), script),
    ensures
        ({
            let removing = |prefixes: Seq<char>, index: Seq<char>|
                "Remove-NetRoute -PolicyStore ActiveStore -DestinationPrefix '"@ + prefixes
                    + "' -InterfaceIndex "@ + index
                    + " -Confirm:$false -ErrorAction SilentlyContinue; "@;
            (removing(
                "0.0.0.0/1"@ + "','"@ + "128.0.0.0/1"@ + "','"@ + "::/1"@ + "','"@ + "8000::/1"@,
                signed_dec(guard.tun_index as int),
            ) + removing(
                ip_text(guard.server_ip@) + "/32"@,
                dec(guard.physical_index as nat),
            )).is_prefix_of(script@)
        }),
{
    let sep = "','"@;
    let a = "0.0.0.0/1"@;
    let b = "128.0.0.0/1"@;
    let c = "::/1"@;
    let d = "8000::/1"@;
    law_joining_keeps_every_text(seq![], a, sep);
    law_joining_keeps_every_text(seq![a], b, sep);
    law_joining_keeps_every_text(seq![a, b], c, sep);
    law_joining_keeps_every_text(seq![a, b, c], d, sep);
    assert(seq![a].push(b) =~= seq![a, b]);
    assert(seq![a, b].push(c) =~= seq![a, b, c]);
    assert(seq![a, b, c].push(d) =~= all_prefixes());
    assert(joined(all_prefixes(), sep) =~= a + sep + b + sep + c + sep + d);
    let routes = remove_routes(guard.removed()[0].0, guard.removed()[0].1) + remove_routes(
        guard.removed()[1].0,
        guard.removed()[1].1,
    );
    assert(script@ == routes + guard.restore_dns_text());
    assert(script@.take(routes.len() as int) =~= routes);
}

/// The script of [`RouteGuard::removal_script`] ends by bringing back exactly the
/// name servers from before, all of them and in their order, on the physical
/// interface. It asks for those of the network only where there were none.
pub proof fn law_removal_script_brings_name_servers_back(guard: RouteGuard, script: String)
    requires
        call_ensures(RouteGuard::removal_script, (&guard,), script),
    ensures
        guard.old_dns@.len() > 0 ==> ("Set-DnsClientServerAddress -InterfaceIndex "@ + dec(
            guard.physical_index as nat,
        ) + " -ServerAddresses @('"@ + joined(texts(guard.old_dns@), "','"@)
            + "') -ErrorAction SilentlyContinue"@).is_suffix_of(script@),
        guard.old_dns@.len() == 0 ==> ("Set-DnsClientServerAddress -InterfaceIndex "@ + dec(
            guard.physical_index as nat,
        ) + " -ResetServerAddresses -ErrorAction SilentlyContinue"@).is_suffix_of(script@),
        guard.old_dns@.len() > 0 ==> !(
        " -ResetServerAddresses -ErrorAction SilentlyContinue"@).is_suffix_of(script@),
{
    let routes = remove_routes(guard.removed()[0].0, guard.removed()[0].1) + remove_routes(
        guard.removed()[1].0,
        guard.removed()[1].1,
    );
    let tail = guard.restore_dns_text();
    assert(script@ == routes + tail);
    assert(script@.subrange(script@.len() - tail.len(), script@.len() as int) =~= tail);
    if guard.old_dns@.len() > 0 {
        let reset = " -ResetServerAddresses -ErrorAction SilentlyContinue"@;
        let set = "') -ErrorAction SilentlyContinue"@;
        reveal_strlit(" -ResetServerAddresses -ErrorAction SilentlyContinue");
        reveal_strlit("') -ErrorAction SilentlyContinue");
        let n = script@.len() as int;
        let at = n - 31;
        assert(script@[at] == set[set.len() - 31]);
        if reset.is_suffix_of(script@) {
            assert(script@.subrange(n - reset.len(), n)[reset.len() - 31] == reset[reset.len()
                - 31]);
        }
    }
}

/// [`parse_route`] reads the interface and the gateway, for every interface and
/// every gateway, with any white space around them.
pub proof fn law_route_is_read(
    answer: &str,
    out: Result<(u32, String), String>,
    a: Seq<char>,
    index: u32,
    gateway: Seq<char>,
    b: Seq<char>,
)
    requires
        call_ensures(parse_route, (answer,), out),
        answer@ == a + (dec(index as nat) + seq!['|'] + gateway) + b,
        forall|i: int| 0 <= i < a.len() ==> is_white(#[trigger] a[i]),
        forall|i: int| 0 <= i < b.len() ==> is_white(#[trigger] b[i]),
        gateway.len() > 0 ==> !is_white(gateway.last()),
    ensures
        out matches Ok((i, g)) && i == index && g@ == gateway,
{
    let digits = dec(index as nat);
    let line = digits + seq!['|'] + gateway;
    lemma_dec_chars(index as nat);
    law_decimal_round_trip(index as nat, u32::MAX as nat);
    assert(line[0] == digits[0]);
    assert('0' <= digits[0] <= '9');
    assert(gateway.len() == 0 ==> line.last() == '|');
    assert(gateway.len() > 0 ==> line.last() == gateway.last());
    law_trim_takes_surrounding_space(a, line, b);
    law_split_at_character(digits, '|', gateway);
}

/// What [`parse_route`] refuses, and with which words.
pub proof fn law_bad_routes_are_told(answer: &str, out: Result<(u32, String), String>)
    requires
        call_ensures(parse_route, (answer,), out),
    ensures
        match split_char(trim(answer@), '|') {
            None => out matches Err(e) && e@ == "failed to read the physical default route"@,
            Some((index, _)) => (parse_number(index, 10, 0xffff_ffff) matches Err(n) ==> (
            out matches Err(e) && e@ == n.words())),
        },
{
}

/// [`parse_dns`] reads every name server between the commas, in order, with any
/// white space around them; and it leaves out exactly the empty places.
pub proof fn law_name_servers_are_read(
    answer: &str,
    out: Vec<String>,
    a: Seq<char>,
    servers: Seq<Seq<char>>,
    b: Seq<char>,
)
    requires
        call_ensures(parse_dns, (answer,), out),
    ensures
        texts(out@) == non_empty(split_all(trim(answer@), ',')),
        answer@ == a + joined(servers, seq![',']) + b && (forall|i: int|
            0 <= i < a.len() ==> is_white(#[trigger] a[i])) && (forall|i: int|
            0 <= i < b.len() ==> is_white(#[trigger] b[i])) && (forall|i: int|
            0 <= i < servers.len() ==> is_server(#[trigger] servers[i])) ==> texts(out@) == servers,
{
    if answer@ == a + joined(servers, seq![',']) + b && (forall|i: int|
        0 <= i < a.len() ==> is_white(#[trigger] a[i])) && (forall|i: int|
        0 <= i < b.len() ==> is_white(#[trigger] b[i])) && (forall|i: int|
        0 <= i < servers.len() ==> is_server(#[trigger] servers[i])) {
        let list = joined(servers, seq![',']);
        if servers.len() > 0 {
            lemma_joined_ends(servers);
        }
        law_trim_takes_surrounding_space(a, list, b);
        law_trim_takes_surrounding_space(seq![], list, seq![]);
        assert(Seq::<char>::empty() + list + Seq::<char>::empty() =~= list);
        reveal_strlit(",");
        assert(","@ =~= seq![',']);
        law_name_servers_are_kept(servers);
    }
}

/// Leaving out empty places keeps everything else in its order.
pub proof fn law_only_empty_places_are_left_out(list: Seq<Seq<char>>, last: Seq<char>)
    ensures
        non_empty(Seq::<Seq<char>>::empty()) == Seq::<Seq<char>>::empty(),
        last.len() == 0 ==> non_empty(list.push(last)) == non_empty(list),
        last.len() > 0 ==> non_empty(list.push(last)) == non_empty(list).push(last),
{
    assert(list.push(last).drop_last() =~= list);
}

/// The script of [`dns_query`] asks for the given interface, and what a script put
/// out comes back whole, or the reason of its failure without the white space
/// around it.
pub proof fn law_scripts_are_asked_and_answered(
    index: u32,
    script: String,
    success: bool,
    stdout: &[u8],
    stderr: &[u8],
    out: Result<String, String>,
)
    ensures
        call_ensures(dns_query, (index,), script) ==> script@
            == "(Get-DnsClientServerAddress -InterfaceIndex "@ + dec(index as nat)
            + " -AddressFamily IPv4).ServerAddresses -join ','"@,
        call_ensures(script_output, (success, stdout, stderr), out) ==> if success {
            out matches Ok(text) && text@ == lossy_text(stdout@)
        } else {
            out matches Err(e) && e@ == "PowerShell network configuration failed: "@ + trim(
                lossy_text(stderr@),
            )
        },
{
}

} // verus!
