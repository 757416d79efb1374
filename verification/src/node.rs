//! The node that the desktop client is built for, and the configuration of the
//! proxy engine for it.

use crate::text::{fits_line, lemma_line_kept, lemma_new_line, lines};
use vstd::prelude::*;

verus! {

/// What protects the control interface of the engine on this machine.
pub const CONTROLLER_SECRET: &'static str = "ss-rs-local-traffic";

/// The configuration up to the secret.
pub const CONFIG_LISTENERS: &'static str = "mixed-port: 39080\nallow-lan: false\nmode: rule\nlog-level: info\nipv6: false\nexternal-controller: 127.0.0.1:39097";

/// The configuration between the secret and the place of the node.
pub const CONFIG_TUN: &'static str = "tun:\n  enable: true\n  stack: gvisor\n  auto-route: true\n  strict-route: true\n  auto-detect-interface: true\n  dns-hijack:\n    - any:53\ndns:\n  enable: true\n  enhanced-mode: fake-ip\n  fake-ip-range: 198.18.0.1/16\n  nameserver:\n    - 1.1.1.1\n    - 8.8.8.8\nproxies:\n  - name: SamsT4vless-CDN\n    type: vless";

/// The configuration between the user of the node and its TLS name.
pub const CONFIG_TRANSPORT: &'static str = "    network: xhttp\n    encryption: \"\"\n    packet-encoding: xudp\n    tls: true\n    udp: true";

/// The configuration between the TLS name and the path.
pub const CONFIG_TLS: &'static str = "    alpn:\n      - h2\n      - http/1.1\n    skip-cert-verify: false\n    client-fingerprint: chrome\n    xhttp-opts:";

/// The configuration behind the host.
pub const CONFIG_RULES: &'static str = "      mode: auto\n      x-padding-bytes: 100-1000\n      x-padding-obfs-mode: false\nproxy-groups:\n  - name: PROXY\n    type: select\n    proxies:\n      - SamsT4vless-CDN\nrules:\n  - MATCH,PROXY\n";

/// Where the node is and how it is asked.
pub struct Node {
    pub server: String,
    pub port: String,
    pub uuid: String,
    pub sni: String,
    pub xhttp_path: String,
}

/// A value behind its key, on a new line.
pub open spec fn fed(key: Seq<char>, value: Seq<char>) -> Seq<char> {
    "\n"@ + key + value
}

/// Appends a value behind its key, on a new line.
fn push_line(out: &mut String, key: &str, value: &str)
    ensures
        final(out)@ == old(out)@ + fed(key@, value@),
{
    out.append("\n");
    out.append(key);
    out.append(value);
    assert(out@ =~= old(out)@ + fed(key@, value@));
}

impl Node {
    /// The configuration of the engine: the node under its name and port, and
    /// one TLS name for both the certificate and the host of the requests.
    pub open spec fn config_text(&self) -> Seq<char> {
        CONFIG_LISTENERS@ + fed("secret: "@, CONTROLLER_SECRET@) + fed(""@, CONFIG_TUN@) + fed(
            "    server: "@,
            self.server@,
        ) + fed("    port: "@, self.port@) + fed("    uuid: "@, self.uuid@) + fed(
            ""@,
            CONFIG_TRANSPORT@,
        ) + fed("    servername: "@, self.sni@) + fed(""@, CONFIG_TLS@) + fed(
            "      path: "@,
            self.xhttp_path@,
        ) + fed("      host: "@, self.sni@) + fed(""@, CONFIG_RULES@)
    }

    /// All that a connection needs was built in.
    pub open spec fn complete(&self, engine_len: nat, wintun_len: nat) -> bool {
        self.server@.len() > 0 && self.uuid@.len() > 0 && self.sni@.len() > 0
            && self.xhttp_path@.len() > 0 && engine_len > 0 && wintun_len > 0
    }

    /// The place of the node in the list of details.
    pub open spec fn place_text(&self) -> Seq<char> {
        self.server@ + " : "@ + self.port@
    }

    /// The line that tells what a new connection goes through.
    pub open spec fn connection_text(&self) -> Seq<char> {
        "连接："@ + self.server@ + ":"@ + self.port@ + " · TLS/"@ + self.sni@
    }

    /// Refuses a client that was built without the node, the engine or the
    /// driver of the adapter.
    pub fn check_build(&self, engine: &[u8], wintun: &[u8]) -> (result: Result<(), String>)
        ensures
            result is Ok <==> self.complete(engine@.len(), wintun@.len()),
            result matches Err(e) ==> e@ == "客户端构建不完整"@,
    {
        if self.server.as_str().is_empty() || self.uuid.as_str().is_empty()
            || self.sni.as_str().is_empty() || self.xhttp_path.as_str().is_empty() || engine.len()
            == 0 || wintun.len() == 0 {
            return Err("客户端构建不完整".to_owned());
        }
        Ok(())
    }

    /// The place of the node in the list of details.
    pub fn place(&self) -> (text: String)
        ensures
            text@ == self.place_text(),
    {
        let mut text = self.server.clone();
        text.append(" : ");
        text.append(self.port.as_str());
        text
    }

    /// The line that tells what a new connection goes through.
    pub fn connection_line(&self) -> (text: String)
        ensures
            text@ == self.connection_text(),
    {
        let mut text = "连接：".to_owned();
        text.append(self.server.as_str());
        text.append(":");
        text.append(self.port.as_str());
        text.append(" · TLS/");
        text.append(self.sni.as_str());
        text
    }
}

/// The configuration of the engine.
pub fn mihomo_config(node: &Node) -> (text: String)
    ensures
        text@ == node.config_text(),
{
    let mut text = CONFIG_LISTENERS.to_owned();
    push_line(&mut text, "secret: ", CONTROLLER_SECRET);
    push_line(&mut text, "", CONFIG_TUN);
    push_line(&mut text, "    server: ", node.server.as_str());
    push_line(&mut text, "    port: ", node.port.as_str());
    push_line(&mut text, "    uuid: ", node.uuid.as_str());
    push_line(&mut text, "", CONFIG_TRANSPORT);
    push_line(&mut text, "    servername: ", node.sni.as_str());
    push_line(&mut text, "", CONFIG_TLS);
    push_line(&mut text, "      path: ", node.xhttp_path.as_str());
    push_line(&mut text, "      host: ", node.sni.as_str());
    push_line(&mut text, "", CONFIG_RULES);
    text
}

/// Whether an embedded file is to be written: unless a file of its length is
/// there already.
pub fn needs_write(existing: Option<u64>, len: u64) -> (write: bool)
    ensures
        write == (existing != Some(len)),
{
    match existing {
        Some(there) => there != len,
        None => true,
    }
}

/// The configuration holds each part of the node in a line of its own, behind
/// its key, and the one TLS name as both the name of the certificate and the
/// host of the requests.
pub proof fn law_config_names_node(node: Node)
    requires
        fits_line(node.server@),
        fits_line(node.port@),
        fits_line(node.uuid@),
        fits_line(node.sni@),
        fits_line(node.xhttp_path@),
    ensures
        lines(node.config_text()).contains("    server: "@ + node.server@),
        lines(node.config_text()).contains("    port: "@ + node.port@),
        lines(node.config_text()).contains("    uuid: "@ + node.uuid@),
        lines(node.config_text()).contains("    servername: "@ + node.sni@),
        lines(node.config_text()).contains("      path: "@ + node.xhttp_path@),
        lines(node.config_text()).contains("      host: "@ + node.sni@),
{
    reveal_strlit("    server: ");
    reveal_strlit("    port: ");
    reveal_strlit("    uuid: ");
    reveal_strlit("    servername: ");
    reveal_strlit("      path: ");
    reveal_strlit("      host: ");
    let t2 = CONFIG_LISTENERS@ + fed("secret: "@, CONTROLLER_SECRET@) + fed(""@, CONFIG_TUN@);
    let t3 = t2 + fed("    server: "@, node.server@);
    let t4 = t3 + fed("    port: "@, node.port@);
    let t5 = t4 + fed("    uuid: "@, node.uuid@);
    let t6 = t5 + fed(""@, CONFIG_TRANSPORT@);
    let t7 = t6 + fed("    servername: "@, node.sni@);
    let t8 = t7 + fed(""@, CONFIG_TLS@);
    let t9 = t8 + fed("      path: "@, node.xhttp_path@);
    let t10 = t9 + fed("      host: "@, node.sni@);
    let server = "    server: "@ + node.server@;
    let port = "    port: "@ + node.port@;
    let uuid = "    uuid: "@ + node.uuid@;
    let name = "    servername: "@ + node.sni@;
    let path = "      path: "@ + node.xhttp_path@;
    let host = "      host: "@ + node.sni@;
    lemma_fed_line(t2, "    server: "@, node.server@);
    lemma_fed_line(t3, "    port: "@, node.port@);
    lemma_fed_line(t4, "    uuid: "@, node.uuid@);
    lemma_fed_line(t6, "    servername: "@, node.sni@);
    lemma_fed_line(t8, "      path: "@, node.xhttp_path@);
    lemma_fed_line(t9, "      host: "@, node.sni@);
    lemma_fed_keeps(t3, server, "    port: "@, node.port@);
    lemma_fed_keeps(t4, server, "    uuid: "@, node.uuid@);
    lemma_fed_keeps(t4, port, "    uuid: "@, node.uuid@);
    lemma_fed_keeps(t5, server, ""@, CONFIG_TRANSPORT@);
    lemma_fed_keeps(t5, port, ""@, CONFIG_TRANSPORT@);
    lemma_fed_keeps(t5, uuid, ""@, CONFIG_TRANSPORT@);
    lemma_fed_keeps(t6, server, "    servername: "@, node.sni@);
    lemma_fed_keeps(t6, port, "    servername: "@, node.sni@);
    lemma_fed_keeps(t6, uuid, "    servername: "@, node.sni@);
    lemma_four_kept(t7, server, port, uuid, name, ""@, CONFIG_TLS@);
    lemma_four_kept(t8, server, port, uuid, name, "      path: "@, node.xhttp_path@);
    lemma_four_kept(t9, server, port, uuid, name, "      host: "@, node.sni@);
    lemma_fed_keeps(t9, path, "      host: "@, node.sni@);
    lemma_four_kept(t10, server, port, uuid, name, ""@, CONFIG_RULES@);
    lemma_fed_keeps(t10, path, ""@, CONFIG_RULES@);
    lemma_fed_keeps(t10, host, ""@, CONFIG_RULES@);
}

/// A value behind its key is a line.
proof fn lemma_fed_line(before: Seq<char>, key: Seq<char>, value: Seq<char>)
    requires
        key.len() > 0,
        fits_line(key),
        fits_line(value),
    ensures
        lines(before + fed(key, value)).contains(key + value),
        fits_line(key + value),
{
    reveal_strlit("\n");
    let line = key + value;
    assert forall|i: int| 0 <= i < line.len() implies #[trigger] line[i] != '\n' by {
        if i < key.len() {
            assert(line[i] == key[i]);
        } else {
            assert(line[i] == value[i - key.len()]);
        }
    }
    if value.len() > 0 {
        assert(line.last() == value.last());
    } else {
        assert(line =~= key);
    }
    lemma_new_line(before, line);
    assert(before + fed(key, value) =~= before + seq!['\n'] + line);
}

/// What follows on a new line leaves a line as it is.
proof fn lemma_fed_keeps(before: Seq<char>, line: Seq<char>, key: Seq<char>, value: Seq<char>)
    requires
        fits_line(line),
        lines(before).contains(line),
    ensures
        lines(before + fed(key, value)).contains(line),
{
    reveal_strlit("\n");
    lemma_line_kept(before, line, fed(key, value));
}

proof fn lemma_four_kept(
    before: Seq<char>,
    a: Seq<char>,
    b: Seq<char>,
    c: Seq<char>,
    d: Seq<char>,
    key: Seq<char>,
    value: Seq<char>,
)
    requires
        fits_line(a) && lines(before).contains(a),
        fits_line(b) && lines(before).contains(b),
        fits_line(c) && lines(before).contains(c),
        fits_line(d) && lines(before).contains(d),
    ensures
        lines(before + fed(key, value)).contains(a),
        lines(before + fed(key, value)).contains(b),
        lines(before + fed(key, value)).contains(c),
        lines(before + fed(key, value)).contains(d),
{
    lemma_fed_keeps(before, a, key, value);
    lemma_fed_keeps(before, b, key, value);
    lemma_fed_keeps(before, c, key, value);
    lemma_fed_keeps(before, d, key, value);
}

/// [`mihomo_config`] writes each part of the node, whole, in a line of its own, and
/// the parts make no other difference to the length of the text.
pub proof fn law_config_is_written_for_the_node(node: Node, text: String)
    requires
        call_ensures(mihomo_config, (&node,), text),
        forall|i: int| 0 <= i < node.server@.len() ==> #[trigger] node.server@[i] != '\n',
        node.server@.len() > 0 ==> node.server@.last() != '\r',
        forall|i: int| 0 <= i < node.port@.len() ==> #[trigger] node.port@[i] != '\n',
        node.port@.len() > 0 ==> node.port@.last() != '\r',
        forall|i: int| 0 <= i < node.uuid@.len() ==> #[trigger] node.uuid@[i] != '\n',
        node.uuid@.len() > 0 ==> node.uuid@.last() != '\r',
        forall|i: int| 0 <= i < node.sni@.len() ==> #[trigger] node.sni@[i] != '\n',
        node.sni@.len() > 0 ==> node.sni@.last() != '\r',
        forall|i: int| 0 <= i < node.xhttp_path@.len() ==> #[trigger] node.xhttp_path@[i] != '\n',
        node.xhttp_path@.len() > 0 ==> node.xhttp_path@.last() != '\r',
    ensures
        lines(text@).contains("    server: "@ + node.server@),
        lines(text@).contains("    port: "@ + node.port@),
        lines(text@).contains("    uuid: "@ + node.uuid@),
        lines(text@).contains("    servername: "@ + node.sni@),
        lines(text@).contains("      path: "@ + node.xhttp_path@),
        lines(text@).contains("      host: "@ + node.sni@),
        text@.len() == CONFIG_LISTENERS@.len() + CONTROLLER_SECRET@.len() + CONFIG_TUN@.len()
            + CONFIG_TRANSPORT@.len() + CONFIG_TLS@.len() + CONFIG_RULES@.len() + node.server@.len()
            + node.port@.len() + node.uuid@.len() + 2 * node.sni@.len() + node.xhttp_path@.len()
            + 91,
{
    law_config_names_node(node);
    reveal_strlit("\n");
    reveal_strlit("");
    reveal_strlit("secret: ");
    reveal_strlit("    server: ");
    reveal_strlit("    port: ");
    reveal_strlit("    uuid: ");
    reveal_strlit("    servername: ");
    reveal_strlit("      path: ");
    reveal_strlit("      host: ");
}

/// [`Node::check_build`] refuses exactly a client with an empty server, user, TLS
/// name, path, engine or driver; and the texts about the node are its parts.
pub proof fn law_builds_need_every_part(
    node: Node,
    engine: &[u8],
    wintun: &[u8],
    out: Result<(), String>,
    place: String,
    line: String,
)
    ensures
        call_ensures(Node::check_build, (&node, engine, wintun), out) ==> {
            &&& out is Err <==> node.server@.len() == 0 || node.uuid@.len() == 0 || node.sni@.len()
                == 0 || node.xhttp_path@.len() == 0 || engine@.len() == 0 || wintun@.len() == 0
            &&& out matches Err(e) ==> e@ == "客户端构建不完整"@
        },
        call_ensures(Node::place, (&node,), place) ==> place@ == node.server@ + " : "@ + node.port@,
        call_ensures(Node::connection_line, (&node,), line) ==> line@ == "连接："@ + node.server@
            + ":"@ + node.port@ + " · TLS/"@ + node.sni@,
{
}

/// [`needs_write`] leaves a file alone exactly where it has the right length.
pub proof fn law_files_of_the_right_length_stay(existing: Option<u64>, len: u64, write: bool)
    requires
        call_ensures(needs_write, (existing, len), write),
    ensures
        !write <==> (existing matches Some(there) && there == len),
{
}

} // verus!
