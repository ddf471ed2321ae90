//! The text codec for tunnel configurations: a line-oriented format of
//! `[Section]` headers and `Key = value` assignments, with `#`-prefixed
//! comment keys carrying this manager's metadata and two best-effort
//! fallbacks for third-party exports.

use vstd::prelude::*;

use crate::config::{
    ConfigView, IfaceView, Interface, Peer, PeerView, WireguardConfig, empty_iface_view,
    empty_peer_view, ov,
};
use crate::ip;
use crate::text;
use crate::text::{dec_str, find_ch, split_on, trim, unlines};

verus! {

// ---------------------------------------------------------------------
// Serialization
// ---------------------------------------------------------------------
/// A `Key = value` line.
pub open spec fn kv_line(k: Seq<char>, v: Seq<char>) -> Seq<char> {
    k + " = "@ + v
}

/// The zero-or-one entry a present optional field contributes.
pub open spec fn opt_entry(key: Seq<char>, v: Option<Seq<char>>) -> Seq<(Seq<char>, Seq<char>)> {
    match v {
        Some(x) => seq![(key, x)],
        None => Seq::empty(),
    }
}

/// The identity, address and key entries of the interface block; the
/// bind-interface entry appears only when the script bind flag is set.
pub open spec fn iface_entries_a(ifc: IfaceView) -> Seq<(Seq<char>, Seq<char>)> {
    opt_entry("# Name"@, ifc.name) + (if ifc.has_script_bind_iface {
        opt_entry("# BindIface"@, ifc.binding_iface)
    } else {
        Seq::empty()
    }) + opt_entry("# RoutingScriptName"@, ifc.routing_script_name) + opt_entry(
        "Address"@,
        ifc.address,
    ) + opt_entry("ListenPort"@, ifc.listen_port) + opt_entry("PrivateKey"@, ifc.private_key)
        + opt_entry("DNS"@, ifc.dns)
}

/// The table, MTU and hook entries of the interface block.
pub open spec fn iface_entries_b(ifc: IfaceView) -> Seq<(Seq<char>, Seq<char>)> {
    opt_entry("Table"@, ifc.table) + opt_entry("MTU"@, ifc.mtu) + opt_entry("PreUp"@, ifc.pre_up)
        + opt_entry("PostUp"@, ifc.post_up) + opt_entry("PreDown"@, ifc.pre_down) + opt_entry(
        "PostDown"@,
        ifc.post_down,
    ) + opt_entry("FwMark"@, ifc.fwmark)
}

/// The key-value entries of the interface block, in their fixed order.
pub open spec fn iface_entries(ifc: IfaceView) -> Seq<(Seq<char>, Seq<char>)> {
    iface_entries_a(ifc) + iface_entries_b(ifc)
}

/// The key-value entries of one peer block, in their fixed order.
pub open spec fn peer_entries(p: PeerView) -> Seq<(Seq<char>, Seq<char>)> {
    opt_entry("# Name"@, p.name) + opt_entry("AllowedIPs"@, p.allowed_ips) + opt_entry(
        "Endpoint"@,
        p.endpoint,
    ) + opt_entry("PublicKey"@, p.public_key) + opt_entry(
        "PersistentKeepalive"@,
        p.persistent_keepalive,
    )
}

/// The lines of a list of entries.
pub open spec fn kv_lines(entries: Seq<(Seq<char>, Seq<char>)>) -> Seq<Seq<char>> {
    entries.map_values(|e: (Seq<char>, Seq<char>)| kv_line(e.0, e.1))
}

/// The interface block: header, entries, and a closing blank line.
pub open spec fn iface_lines(ifc: IfaceView) -> Seq<Seq<char>> {
    seq!["[Interface]"@] + kv_lines(iface_entries(ifc)) + seq![Seq::<char>::empty()]
}

/// One peer block: header, entries, and a closing blank line.
pub open spec fn peer_lines(p: PeerView) -> Seq<Seq<char>> {
    seq!["[Peer]"@] + kv_lines(peer_entries(p)) + seq![Seq::<char>::empty()]
}

/// The blocks of all peers, in order.
pub open spec fn peers_lines(ps: Seq<PeerView>) -> Seq<Seq<char>>
    decreases ps.len(),
{
    if ps.len() == 0 {
        Seq::empty()
    } else {
        peer_lines(ps[0]) + peers_lines(ps.drop_first())
    }
}

/// Every line the serializer emits for a configuration.
pub open spec fn ser_lines(c: ConfigView) -> Seq<Seq<char>> {
    iface_lines(c.interface) + peers_lines(c.peers)
}

/// The serialized text of a configuration.
pub open spec fn ser_spec(c: ConfigView) -> Seq<char> {
    unlines(ser_lines(c))
}

/// The emitted text of an entry list splits over concatenation.
pub proof fn lemma_kv_append(a: Seq<(Seq<char>, Seq<char>)>, b: Seq<(Seq<char>, Seq<char>)>)
    ensures
        unlines(kv_lines(a + b)) == unlines(kv_lines(a)) + unlines(kv_lines(b)),
{
    assert(kv_lines(a + b) =~= kv_lines(a) + kv_lines(b));
    text::lemma_unlines_concat(kv_lines(a), kv_lines(b));
}

/// Appending one peer extends `peers_lines` at the back.
pub proof fn lemma_peers_lines_push(ps: Seq<PeerView>, i: int)
    requires
        0 <= i < ps.len(),
    ensures
        peers_lines(ps.subrange(0, i + 1)) == peers_lines(ps.subrange(0, i)) + peer_lines(ps[i]),
    decreases i,
{
    if i == 0 {
        let one = ps.subrange(0, 1);
        assert(one.len() == 1);
        assert(one.drop_first() =~= Seq::<PeerView>::empty());
        assert(one[0] == ps[0]);
        assert(peers_lines(one) == peer_lines(ps[0]) + peers_lines(Seq::<PeerView>::empty()));
        assert(peer_lines(ps[0]) + Seq::<Seq<char>>::empty() =~= peer_lines(ps[0]));
        assert(ps.subrange(0, 0).len() == 0);
        assert(peers_lines(ps.subrange(0, 0)) + peer_lines(ps[0]) =~= peer_lines(ps[0]));
    } else {
        lemma_peers_lines_push(ps.drop_first(), i - 1);
        let a = ps.subrange(0, i + 1);
        let b = ps.subrange(0, i);
        assert(a.drop_first() =~= ps.drop_first().subrange(0, i));
        assert(b.drop_first() =~= ps.drop_first().subrange(0, i - 1));
        assert(ps.drop_first()[i - 1] == ps[i]);
        assert(a[0] == ps[0] && b[0] == ps[0]);
        assert(peer_lines(ps[0]) + (peers_lines(ps.drop_first().subrange(0, i - 1)) + peer_lines(
            ps[i],
        )) =~= (peer_lines(ps[0]) + peers_lines(ps.drop_first().subrange(0, i - 1))) + peer_lines(
            ps[i],
        ));
    }
}

/// Emit one optional field as a `Key = value` line.
fn emit_field(out: &mut Vec<char>, key: &str, v: &Option<String>)
    ensures
        final(out)@ == old(out)@ + unlines(kv_lines(opt_entry(key@, ov(*v)))),
{
    match v {
        Some(value) => {
            let ghost before = out@;
            text::extend_str(out, key);
            text::extend_str(out, " = ");
            text::extend_str(out, value.as_str());
            out.push('\n');
            proof {
                let entry = opt_entry(key@, ov(*v));
                assert(kv_lines(entry) =~= seq![kv_line(key@, value@)]);
                text::lemma_unlines_single(kv_line(key@, value@));
                assert(out@ =~= before + unlines(kv_lines(entry)));
            }
        },
        None => {
            proof {
                let entry = opt_entry(key@, ov(*v));
                assert(kv_lines(entry) =~= Seq::<Seq<char>>::empty());
                assert(out@ =~= out@ + unlines(kv_lines(entry)));
            }
        },
    }
}

/// Emit the identity, address and key fields of the interface block.
#[verifier::rlimit(100)]
#[verifier::spinoff_prover]
fn emit_iface_a(out: &mut Vec<char>, iface: &Interface)
    ensures
        final(out)@ == old(out)@ + unlines(kv_lines(iface_entries_a(iface@))),
{
    let ghost ifc = iface@;
    let ghost start = out@;
    let ghost mut done: Seq<(Seq<char>, Seq<char>)> = Seq::empty();
    proof {
        assert(kv_lines(done) =~= Seq::<Seq<char>>::empty());
        assert(out@ =~= start + unlines(kv_lines(done)));
    }
    emit_field(out, "# Name", &iface.name);
    proof {
        lemma_kv_append(done, opt_entry("# Name"@, ifc.name));
        done = done + opt_entry("# Name"@, ifc.name);
        assert(out@ =~= start + unlines(kv_lines(done)));
    }
    if iface.has_script_bind_iface {
        emit_field(out, "# BindIface", &iface.binding_iface);
        proof {
            lemma_kv_append(done, opt_entry("# BindIface"@, ifc.binding_iface));
            done = done + opt_entry("# BindIface"@, ifc.binding_iface);
            assert(out@ =~= start + unlines(kv_lines(done)));
        }
    } else {
        proof {
            assert(done + Seq::<(Seq<char>, Seq<char>)>::empty() =~= done);
            done = done + Seq::<(Seq<char>, Seq<char>)>::empty();
        }
    }
    emit_field(out, "# RoutingScriptName", &iface.routing_script_name);
    proof {
        lemma_kv_append(done, opt_entry("# RoutingScriptName"@, ifc.routing_script_name));
        done = done + opt_entry("# RoutingScriptName"@, ifc.routing_script_name);
        assert(out@ =~= start + unlines(kv_lines(done)));
    }
    emit_field(out, "Address", &iface.address);
    proof {
        lemma_kv_append(done, opt_entry("Address"@, ifc.address));
        done = done + opt_entry("Address"@, ifc.address);
        assert(out@ =~= start + unlines(kv_lines(done)));
    }
    emit_field(out, "ListenPort", &iface.listen_port);
    proof {
        lemma_kv_append(done, opt_entry("ListenPort"@, ifc.listen_port));
        done = done + opt_entry("ListenPort"@, ifc.listen_port);
        assert(out@ =~= start + unlines(kv_lines(done)));
    }
    emit_field(out, "PrivateKey", &iface.private_key);
    proof {
        lemma_kv_append(done, opt_entry("PrivateKey"@, ifc.private_key));
        done = done + opt_entry("PrivateKey"@, ifc.private_key);
        assert(out@ =~= start + unlines(kv_lines(done)));
    }
    emit_field(out, "DNS", &iface.dns);
    proof {
        lemma_kv_append(done, opt_entry("DNS"@, ifc.dns));
        done = done + opt_entry("DNS"@, ifc.dns);
        assert(out@ =~= start + unlines(kv_lines(done)));
        assert(done =~= iface_entries_a(ifc));
    }
}

/// Emit the table, MTU and hook fields of the interface block.
#[verifier::rlimit(100)]
#[verifier::spinoff_prover]
fn emit_iface_b(out: &mut Vec<char>, iface: &Interface)
    ensures
        final(out)@ == old(out)@ + unlines(kv_lines(iface_entries_b(iface@))),
{
    let ghost ifc = iface@;
    let ghost start = out@;
    let ghost mut done: Seq<(Seq<char>, Seq<char>)> = Seq::empty();
    proof {
        assert(kv_lines(done) =~= Seq::<Seq<char>>::empty());
        assert(out@ =~= start + unlines(kv_lines(done)));
    }
    emit_field(out, "Table", &iface.table);
    proof {
        lemma_kv_append(done, opt_entry("Table"@, ifc.table));
        done = done + opt_entry("Table"@, ifc.table);
        assert(out@ =~= start + unlines(kv_lines(done)));
    }
    emit_field(out, "MTU", &iface.mtu);
    proof {
        lemma_kv_append(done, opt_entry("MTU"@, ifc.mtu));
        done = done + opt_entry("MTU"@, ifc.mtu);
        assert(out@ =~= start + unlines(kv_lines(done)));
    }
    emit_field(out, "PreUp", &iface.pre_up);
    proof {
        lemma_kv_append(done, opt_entry("PreUp"@, ifc.pre_up));
        done = done + opt_entry("PreUp"@, ifc.pre_up);
        assert(out@ =~= start + unlines(kv_lines(done)));
    }
    emit_field(out, "PostUp", &iface.post_up);
    proof {
        lemma_kv_append(done, opt_entry("PostUp"@, ifc.post_up));
        done = done + opt_entry("PostUp"@, ifc.post_up);
        assert(out@ =~= start + unlines(kv_lines(done)));
    }
    emit_field(out, "PreDown", &iface.pre_down);
    proof {
        lemma_kv_append(done, opt_entry("PreDown"@, ifc.pre_down));
        done = done + opt_entry("PreDown"@, ifc.pre_down);
        assert(out@ =~= start + unlines(kv_lines(done)));
    }
    emit_field(out, "PostDown", &iface.post_down);
    proof {
        lemma_kv_append(done, opt_entry("PostDown"@, ifc.post_down));
        done = done + opt_entry("PostDown"@, ifc.post_down);
        assert(out@ =~= start + unlines(kv_lines(done)));
    }
    emit_field(out, "FwMark", &iface.fwmark);
    proof {
        lemma_kv_append(done, opt_entry("FwMark"@, ifc.fwmark));
        done = done + opt_entry("FwMark"@, ifc.fwmark);
        assert(out@ =~= start + unlines(kv_lines(done)));
        assert(done =~= iface_entries_b(ifc));
    }
}

/// Emit the interface block: header, the populated fields in their
/// fixed order, and the closing blank line.
#[verifier::rlimit(100)]
#[verifier::spinoff_prover]
fn emit_iface_block(out: &mut Vec<char>, iface: &Interface)
    ensures
        final(out)@ == old(out)@ + unlines(iface_lines(iface@)),
{
    let ghost ifc = iface@;
    let ghost block_start = out@;
    text::extend_str(out, "[Interface]");
    out.push('\n');
    proof {
        text::lemma_unlines_single("[Interface]"@);
        assert(out@ =~= block_start + unlines(seq!["[Interface]"@]));
    }
    let ghost after_header = out@;
    emit_iface_a(out, iface);
    emit_iface_b(out, iface);
    proof {
        lemma_kv_append(iface_entries_a(ifc), iface_entries_b(ifc));
        assert(out@ =~= after_header + unlines(kv_lines(iface_entries(ifc))));
    }
    out.push('\n');
    proof {
        text::lemma_unlines_single(Seq::<char>::empty());
        assert(Seq::<char>::empty() + seq!['\n'] =~= seq!['\n']);
        text::lemma_unlines_concat(seq!["[Interface]"@] + kv_lines(iface_entries(ifc)), seq![
            Seq::<char>::empty(),
        ]);
        text::lemma_unlines_concat(seq!["[Interface]"@], kv_lines(iface_entries(ifc)));
        assert(iface_lines(ifc) =~= (seq!["[Interface]"@] + kv_lines(iface_entries(ifc))) + seq![
            Seq::<char>::empty(),
        ]);
        assert(out@ =~= block_start + unlines(iface_lines(ifc)));
    }
}

/// Emit one peer block: header, populated fields, closing blank line.
#[verifier::rlimit(100)]
#[verifier::spinoff_prover]
fn emit_peer_block(out: &mut Vec<char>, p: &Peer)
    ensures
        final(out)@ == old(out)@ + unlines(peer_lines(p@)),
{
    let ghost pv = p@;
    let ghost block_start = out@;
    text::extend_str(out, "[Peer]");
    out.push('\n');
    proof {
        text::lemma_unlines_single("[Peer]"@);
        assert(out@ =~= block_start + unlines(seq!["[Peer]"@]));
    }
    let ghost after_header = out@;
    let ghost mut done: Seq<(Seq<char>, Seq<char>)> = Seq::empty();
    proof {
        assert(kv_lines(done) =~= Seq::<Seq<char>>::empty());
        assert(out@ =~= after_header + unlines(kv_lines(done)));
    }
    emit_field(out, "# Name", &p.name);
    proof {
        lemma_kv_append(done, opt_entry("# Name"@, pv.name));
        done = done + opt_entry("# Name"@, pv.name);
        assert(out@ =~= after_header + unlines(kv_lines(done)));
    }
    emit_field(out, "AllowedIPs", &p.allowed_ips);
    proof {
        lemma_kv_append(done, opt_entry("AllowedIPs"@, pv.allowed_ips));
        done = done + opt_entry("AllowedIPs"@, pv.allowed_ips);
        assert(out@ =~= after_header + unlines(kv_lines(done)));
    }
    emit_field(out, "Endpoint", &p.endpoint);
    proof {
        lemma_kv_append(done, opt_entry("Endpoint"@, pv.endpoint));
        done = done + opt_entry("Endpoint"@, pv.endpoint);
        assert(out@ =~= after_header + unlines(kv_lines(done)));
    }
    emit_field(out, "PublicKey", &p.public_key);
    proof {
        lemma_kv_append(done, opt_entry("PublicKey"@, pv.public_key));
        done = done + opt_entry("PublicKey"@, pv.public_key);
        assert(out@ =~= after_header + unlines(kv_lines(done)));
    }
    emit_field(out, "PersistentKeepalive", &p.persistent_keepalive);
    proof {
        lemma_kv_append(done, opt_entry("PersistentKeepalive"@, pv.persistent_keepalive));
        done = done + opt_entry("PersistentKeepalive"@, pv.persistent_keepalive);
        assert(out@ =~= after_header + unlines(kv_lines(done)));
        assert(done =~= peer_entries(pv));
        assert(out@ == after_header + unlines(kv_lines(peer_entries(pv))));
    }
    out.push('\n');
    proof {
        assert(out@ =~= (after_header + unlines(kv_lines(peer_entries(pv)))) + seq!['\n']);
        text::lemma_unlines_single(Seq::<char>::empty());
        assert(Seq::<char>::empty() + seq!['\n'] =~= seq!['\n']);
        text::lemma_unlines_concat(seq!["[Peer]"@] + kv_lines(peer_entries(pv)), seq![
            Seq::<char>::empty(),
        ]);
        text::lemma_unlines_concat(seq!["[Peer]"@], kv_lines(peer_entries(pv)));
        assert(peer_lines(pv) =~= (seq!["[Peer]"@] + kv_lines(peer_entries(pv))) + seq![
            Seq::<char>::empty(),
        ]);
        assert(out@ =~= block_start + unlines(peer_lines(pv)));
    }
}

/// Write a configuration in the on-disk text format: the interface
/// block with its populated fields in fixed order — the bind-interface
/// comment only when the script bind flag is set — then one block per
/// peer, each closed by a blank line. Absent fields produce no line at
/// all.
pub fn write_config(c: &WireguardConfig) -> (r: String)
    ensures
        r@ == ser_spec(c@),
{
    let mut out: Vec<char> = Vec::new();
    emit_iface_block(&mut out, &c.interface);
    proof {
        assert(peers_lines(c@.peers.subrange(0, 0)) =~= Seq::<Seq<char>>::empty());
        assert(out@ =~= unlines(iface_lines(c@.interface)) + unlines(
            peers_lines(c@.peers.subrange(0, 0)),
        ));
    }
    let n = c.peers.len();
    let mut i: usize = 0;
    while i < n
        invariant
            0 <= i <= n,
            n == c.peers@.len(),
            out@ == unlines(iface_lines(c@.interface)) + unlines(
                peers_lines(c@.peers.subrange(0, i as int)),
            ),
        decreases n - i,
    {
        emit_peer_block(&mut out, &c.peers[i]);
        proof {
            assert(c.peers@[i as int]@ == c@.peers[i as int]);
            lemma_peers_lines_push(c@.peers, i as int);
            text::lemma_unlines_concat(
                peers_lines(c@.peers.subrange(0, i as int)),
                peer_lines(c@.peers[i as int]),
            );
            assert(out@ =~= unlines(iface_lines(c@.interface)) + unlines(
                peers_lines(c@.peers.subrange(0, i as int + 1)),
            ));
        }
        i = i + 1;
    }
    proof {
        assert(c@.peers.subrange(0, n as int) =~= c@.peers);
        text::lemma_unlines_concat(iface_lines(c@.interface), peers_lines(c@.peers));
        assert(out@ =~= ser_spec(c@));
    }
    text::string_from_chars(&out)
}

// ---------------------------------------------------------------------
// Parsing
// ---------------------------------------------------------------------
/// What one input line can be.
pub enum LineKind {
    /// Only whitespace.
    Blank,
    /// `[Name]`, carrying the trimmed name.
    Section(Seq<char>),
    /// `key = value`, both sides trimmed; a comment key keeps its `#`.
    Attr(Seq<char>, Seq<char>),
    /// A standalone comment: starts with `#`, holds no `=`.
    Comment(Seq<char>),
    /// None of the above.
    Bad,
}

/// Classify one raw line: blank, section header, assignment, standalone
/// comment, or unparseable.
pub open spec fn classify_line(raw: Seq<char>) -> LineKind {
    let l = trim(raw);
    if l.len() == 0 {
        LineKind::Blank
    } else if l[0] == '[' && l[l.len() - 1] == ']' {
        LineKind::Section(trim(l.subrange(1, l.len() - 1)))
    } else if find_ch(l, '=') >= 0 {
        let e = find_ch(l, '=');
        LineKind::Attr(trim(l.subrange(0, e)), trim(l.subrange(e + 1, l.len() as int)))
    } else if l[0] == '#' {
        LineKind::Comment(l)
    } else {
        LineKind::Bad
    }
}

/// What parsing a configuration can report, before the message is
/// rendered.
pub enum ParseErr {
    /// A line that is no section, assignment or comment; carries the
    /// 1-based line number and the trimmed line.
    BadLine { line_no: int, text: Seq<char> },
    /// A section other than `Interface` or `Peer`.
    UnknownSection { name: Seq<char> },
    /// An unrecognized key inside the interface section.
    UnknownIfaceKey { key: Seq<char> },
    /// An unrecognized key inside a peer section.
    UnknownPeerKey { key: Seq<char> },
    /// An assignment before any section was opened.
    StrayAttr { key: Seq<char> },
    /// An `Address` value that is no IP network.
    BadAddress { value: Seq<char> },
}

/// The message rendered for a parse error.
pub open spec fn parse_err_text(e: ParseErr) -> Seq<char> {
    match e {
        ParseErr::BadLine { line_no, text } => "Couldn't parse line "@ + dec_str(line_no) + ": `"@
            + text + "`"@,
        ParseErr::UnknownSection { name } => "Unexpected interface name "@ + name + "."@,
        ParseErr::UnknownIfaceKey { key } => "Unexpected Interface configuration key "@ + key
            + "."@,
        ParseErr::UnknownPeerKey { key } => "Unexpected Peer configuration key "@ + key + "."@,
        ParseErr::StrayAttr { key } => "Unexpected attribute "@ + key + "."@,
        ParseErr::BadAddress { value } => "Invalid IP address "@ + value + "."@,
    }
}

/// Which section the parser is inside.
#[derive(Clone, Copy, Debug, PartialEq, Eq, Structural)]
pub enum PMode {
    /// Before any section header.
    Start,
    /// Inside `[Interface]`.
    InIface,
    /// Inside a `[Peer]` block.
    InPeer,
}

/// The parser's accumulated state.
pub struct PState {
    pub mode: PMode,
    pub iface: IfaceView,
    pub peers: Seq<PeerView>,
    pub cur: PeerView,
    pub seen_comment: bool,
}

/// The state before the first line.
pub open spec fn init_pstate() -> PState {
    PState {
        mode: PMode::Start,
        iface: empty_iface_view(),
        peers: Seq::empty(),
        cur: empty_peer_view(),
        seen_comment: false,
    }
}

/// The peer list once the current section closes: an open peer block is
/// appended.
pub open spec fn flushed(st: PState) -> Seq<PeerView> {
    if st.mode == PMode::InPeer {
        st.peers.push(st.cur)
    } else {
        st.peers
    }
}

/// One interface assignment. The public key is never assigned here: it
/// is derived from the private key by an external tool, by the caller.
pub open spec fn iface_set(ifc: IfaceView, k: Seq<char>, v: Seq<char>) -> Result<
    IfaceView,
    ParseErr,
> {
    if k == "# Name"@ {
        Ok(IfaceView { name: Some(v), ..ifc })
    } else if k == "# BindIface"@ {
        Ok(IfaceView { binding_iface: Some(v), ..ifc })
    } else if k == "# RoutingScriptName"@ {
        Ok(IfaceView { routing_script_name: Some(v), ..ifc })
    } else if k == "Address"@ {
        if !ip::ip_valid(Some(v)) {
            Err(ParseErr::BadAddress { value: v })
        } else {
            Ok(IfaceView { address: Some(v), ..ifc })
        }
    } else if k == "ListenPort"@ {
        Ok(IfaceView { listen_port: Some(v), ..ifc })
    } else if k == "PrivateKey"@ {
        Ok(IfaceView { private_key: Some(v), ..ifc })
    } else if k == "DNS"@ {
        Ok(IfaceView { dns: Some(v), ..ifc })
    } else if k == "Table"@ {
        Ok(IfaceView { table: Some(v), ..ifc })
    } else if k == "MTU"@ {
        Ok(IfaceView { mtu: Some(v), ..ifc })
    } else if k == "PreUp"@ {
        Ok(IfaceView { pre_up: Some(v), ..ifc })
    } else if k == "PostUp"@ {
        Ok(IfaceView { post_up: Some(v), ..ifc })
    } else if k == "PreDown"@ {
        Ok(IfaceView { pre_down: Some(v), ..ifc })
    } else if k == "PostDown"@ {
        Ok(IfaceView { post_down: Some(v), ..ifc })
    } else if k == "FwMark"@ {
        Ok(IfaceView { fwmark: Some(v), ..ifc })
    } else {
        Err(ParseErr::UnknownIfaceKey { key: k })
    }
}

/// One peer assignment.
pub open spec fn peer_set(p: PeerView, k: Seq<char>, v: Seq<char>) -> Result<PeerView, ParseErr> {
    if k == "# Name"@ {
        Ok(PeerView { name: Some(v), ..p })
    } else if k == "AllowedIPs"@ {
        Ok(PeerView { allowed_ips: Some(v), ..p })
    } else if k == "Endpoint"@ {
        Ok(PeerView { endpoint: Some(v), ..p })
    } else if k == "PublicKey"@ {
        Ok(PeerView { public_key: Some(v), ..p })
    } else if k == "PersistentKeepalive"@ {
        Ok(PeerView { persistent_keepalive: Some(v), ..p })
    } else {
        Err(ParseErr::UnknownPeerKey { key: k })
    }
}

/// The whole parse, one line at a time. Standalone comments feed two
/// best-effort fallbacks for third-party exports: `# Key for <name>`
/// names the interface, and the first standalone comment of a peer
/// block names that peer.
pub open spec fn parse_lines(lines: Seq<Seq<char>>, i: int, st: PState) -> Result<
    ConfigView,
    ParseErr,
>
    decreases lines.len() - i,
{
    if i < 0 || i >= lines.len() {
        Ok(ConfigView { interface: st.iface, peers: flushed(st) })
    } else {
        match classify_line(lines[i]) {
            LineKind::Blank => parse_lines(lines, i + 1, st),
            LineKind::Bad => Err(ParseErr::BadLine { line_no: i + 1, text: trim(lines[i]) }),
            LineKind::Section(name) => {
                if name == "Interface"@ {
                    parse_lines(
                        lines,
                        i + 1,
                        PState {
                            mode: PMode::InIface,
                            iface: st.iface,
                            peers: flushed(st),
                            cur: empty_peer_view(),
                            seen_comment: false,
                        },
                    )
                } else if name == "Peer"@ {
                    parse_lines(
                        lines,
                        i + 1,
                        PState {
                            mode: PMode::InPeer,
                            iface: st.iface,
                            peers: flushed(st),
                            cur: empty_peer_view(),
                            seen_comment: false,
                        },
                    )
                } else {
                    Err(ParseErr::UnknownSection { name })
                }
            },
            LineKind::Attr(k, v) => match st.mode {
                PMode::Start => Err(ParseErr::StrayAttr { key: k }),
                PMode::InIface => match iface_set(st.iface, k, v) {
                    Ok(ifc) => parse_lines(lines, i + 1, PState { iface: ifc, ..st }),
                    Err(e) => Err(e),
                },
                PMode::InPeer => match peer_set(st.cur, k, v) {
                    Ok(c) => parse_lines(lines, i + 1, PState { cur: c, ..st }),
                    Err(e) => Err(e),
                },
            },
            LineKind::Comment(text) => match st.mode {
                PMode::InIface => {
                    if "# Key for "@.is_prefix_of(text) {
                        parse_lines(
                            lines,
                            i + 1,
                            PState {
                                iface: IfaceView {
                                    name: Some(trim(text.subrange(10, text.len() as int))),
                                    ..st.iface
                                },
                                ..st
                            },
                        )
                    } else {
                        parse_lines(lines, i + 1, st)
                    }
                },
                PMode::InPeer => {
                    if !st.seen_comment {
                        let rest = trim(text.subrange(1, text.len() as int));
                        let cur2 = if rest.len() > 0 {
                            PeerView { name: Some(rest), ..st.cur }
                        } else {
                            st.cur
                        };
                        parse_lines(lines, i + 1, PState { cur: cur2, seen_comment: true, ..st })
                    } else {
                        parse_lines(lines, i + 1, st)
                    }
                },
                PMode::Start => parse_lines(lines, i + 1, st),
            },
        }
    }
}

/// What parsing a whole text yields.
pub open spec fn parse_spec(s: Seq<char>) -> Result<ConfigView, ParseErr> {
    parse_lines(split_on(s, '\n'), 0, init_pstate())
}

/// One classified input line, as executable data.
enum LineK {
    Blank,
    Section(Vec<char>),
    Attr(Vec<char>, Vec<char>),
    Comment(Vec<char>),
    Bad(Vec<char>),
}

/// Classify one raw line, mirroring `classify_line`.
fn classify_exec(raw: &Vec<char>) -> (r: LineK)
    ensures
        match r {
            LineK::Blank => classify_line(raw@) == LineKind::Blank,
            LineK::Section(n) => classify_line(raw@) == LineKind::Section(n@),
            LineK::Attr(k, v) => classify_line(raw@) == LineKind::Attr(k@, v@),
            LineK::Comment(t) => classify_line(raw@) == LineKind::Comment(t@) && t@.len() > 0
                && t@[0] == '#' && t@ == trim(raw@),
            LineK::Bad(t) => classify_line(raw@) == LineKind::Bad && t@ == trim(raw@),
        },
{
    let t = text::trim_chars(raw);
    let len = t.len();
    if len == 0 {
        return LineK::Blank;
    }
    if t[0] == '[' && t[len - 1] == ']' {
        let inner = text::subvec(&t, 1, len - 1);
        let name = text::trim_chars(&inner);
        return LineK::Section(name);
    }
    match text::find_ch_vec(&t, '=') {
        Some(e) => {
            let left = text::subvec(&t, 0, e);
            let right = text::subvec(&t, e + 1, len);
            let k = text::trim_chars(&left);
            let v = text::trim_chars(&right);
            LineK::Attr(k, v)
        },
        None => {
            if t[0] == '#' {
                LineK::Comment(t)
            } else {
                LineK::Bad(t)
            }
        },
    }
}

/// Parse the on-disk text format into a configuration. The public key
/// is not derived here: deriving it from a parsed private key needs the
/// external key tool, and is the caller's next step.
#[verifier::loop_isolation(false)]
#[verifier::rlimit(100)]
#[verifier::spinoff_prover]
pub fn parse_config(s: &str) -> (r: Result<WireguardConfig, String>)
    ensures
        match parse_spec(s@) {
            Ok(cv) => r.is_ok() && r.unwrap()@ == cv,
            Err(e) => r.is_err() && r.unwrap_err()@ == parse_err_text(e),
        },
{
    let chars = text::str_to_chars(s);
    let lines = text::split_chars(&chars, '\n');
    let ghost lv = text::seq_views(lines@);
    let n = lines.len();
    let mut mode = PMode::Start;
    let mut iface = Interface::default();
    let mut peers: Vec<Peer> = Vec::new();
    let mut cur = Peer::default();
    let mut seen_comment = false;
    proof {
        assert(crate::config::peer_views(peers@) =~= Seq::<PeerView>::empty());
    }
    let mut i: usize = 0;
    while i < n
        invariant
            0 <= i <= n,
            n == lines@.len(),
            lv == text::seq_views(lines@),
            lv == split_on(chars@, '\n'),
            chars@ == s@,
            parse_spec(s@) == parse_lines(
                lv,
                i as int,
                PState {
                    mode: mode,
                    iface: iface@,
                    peers: crate::config::peer_views(peers@),
                    cur: cur@,
                    seen_comment: seen_comment,
                },
            ),
        decreases n - i,
    {
        let ghost st = PState {
            mode: mode,
            iface: iface@,
            peers: crate::config::peer_views(peers@),
            cur: cur@,
            seen_comment: seen_comment,
        };
        proof {
            assert(lv[i as int] == lines@[i as int]@);
        }
        let k = classify_exec(&lines[i]);
        match k {
            LineK::Blank => {},
            LineK::Bad(t) => {
                let mut msg = text::str_to_chars("Couldn't parse line ");
                let num = text::dec_chars(i + 1);
                text::extend_chars(&mut msg, &num);
                text::extend_str(&mut msg, ": `");
                text::extend_chars(&mut msg, &t);
                text::extend_str(&mut msg, "`");
                return Err(text::string_from_chars(&msg));
            },
            LineK::Section(name) => {
                if text::chars_eq_str(&name, "Interface") {
                    if matches!(mode, PMode::InPeer) {
                        peers.push(cur);
                        cur = Peer::default();
                        proof {
                            assert(crate::config::peer_views(peers@) =~= flushed(st));
                        }
                    } else {
                        cur = Peer::default();
                    }
                    mode = PMode::InIface;
                    seen_comment = false;
                } else if text::chars_eq_str(&name, "Peer") {
                    if matches!(mode, PMode::InPeer) {
                        peers.push(cur);
                        cur = Peer::default();
                        proof {
                            assert(crate::config::peer_views(peers@) =~= flushed(st));
                        }
                    } else {
                        cur = Peer::default();
                    }
                    mode = PMode::InPeer;
                    seen_comment = false;
                } else {
                    let mut msg = text::str_to_chars("Unexpected interface name ");
                    text::extend_chars(&mut msg, &name);
                    text::extend_str(&mut msg, ".");
                    return Err(text::string_from_chars(&msg));
                }
            },
            LineK::Attr(kk, vv) => {
                match mode {
                    PMode::Start => {
                        let mut msg = text::str_to_chars("Unexpected attribute ");
                        text::extend_chars(&mut msg, &kk);
                        text::extend_str(&mut msg, ".");
                        return Err(text::string_from_chars(&msg));
                    },
                    PMode::InIface => {
                        let vs = text::string_from_chars(&vv);
                        if text::chars_eq_str(&kk, "# Name") {
                            iface.name = Some(vs);
                        } else if text::chars_eq_str(&kk, "# BindIface") {
                            iface.binding_iface = Some(vs);
                        } else if text::chars_eq_str(&kk, "# RoutingScriptName") {
                            iface.routing_script_name = Some(vs);
                        } else if text::chars_eq_str(&kk, "Address") {
                            if !ip::is_ip_valid(Some(vs.as_str())) {
                                let mut msg = text::str_to_chars("Invalid IP address ");
                                text::extend_chars(&mut msg, &vv);
                                text::extend_str(&mut msg, ".");
                                return Err(text::string_from_chars(&msg));
                            }
                            iface.address = Some(vs);
                        } else if text::chars_eq_str(&kk, "ListenPort") {
                            iface.listen_port = Some(vs);
                        } else if text::chars_eq_str(&kk, "PrivateKey") {
                            iface.private_key = Some(vs);
                        } else if text::chars_eq_str(&kk, "DNS") {
                            iface.dns = Some(vs);
                        } else if text::chars_eq_str(&kk, "Table") {
                            iface.table = Some(vs);
                        } else if text::chars_eq_str(&kk, "MTU") {
                            iface.mtu = Some(vs);
                        } else if text::chars_eq_str(&kk, "PreUp") {
                            iface.pre_up = Some(vs);
                        } else if text::chars_eq_str(&kk, "PostUp") {
                            iface.post_up = Some(vs);
                        } else if text::chars_eq_str(&kk, "PreDown") {
                            iface.pre_down = Some(vs);
                        } else if text::chars_eq_str(&kk, "PostDown") {
                            iface.post_down = Some(vs);
                        } else if text::chars_eq_str(&kk, "FwMark") {
                            iface.fwmark = Some(vs);
                        } else {
                            let mut msg = text::str_to_chars(
                                "Unexpected Interface configuration key ",
                            );
                            text::extend_chars(&mut msg, &kk);
                            text::extend_str(&mut msg, ".");
                            return Err(text::string_from_chars(&msg));
                        }
                    },
                    PMode::InPeer => {
                        let vs = text::string_from_chars(&vv);
                        if text::chars_eq_str(&kk, "# Name") {
                            cur.name = Some(vs);
                        } else if text::chars_eq_str(&kk, "AllowedIPs") {
                            cur.allowed_ips = Some(vs);
                        } else if text::chars_eq_str(&kk, "Endpoint") {
                            cur.endpoint = Some(vs);
                        } else if text::chars_eq_str(&kk, "PublicKey") {
                            cur.public_key = Some(vs);
                        } else if text::chars_eq_str(&kk, "PersistentKeepalive") {
                            cur.persistent_keepalive = Some(vs);
                        } else {
                            let mut msg = text::str_to_chars("Unexpected Peer configuration key ");
                            text::extend_chars(&mut msg, &kk);
                            text::extend_str(&mut msg, ".");
                            return Err(text::string_from_chars(&msg));
                        }
                    },
                }
            },
            LineK::Comment(t) => {
                match mode {
                    PMode::InIface => {
                        if text::starts_with_str(&t, "# Key for ") {
                            proof {
                                reveal_strlit("# Key for ");
                            }
                            let restv = text::subvec(&t, 10, t.len());
                            let rest = text::trim_chars(&restv);
                            iface.name = Some(text::string_from_chars(&rest));
                        }
                    },
                    PMode::InPeer => {
                        if !seen_comment {
                            seen_comment = true;
                            let restv = text::subvec(&t, 1, t.len());
                            let rest = text::trim_chars(&restv);
                            if rest.len() > 0 {
                                cur.name = Some(text::string_from_chars(&rest));
                            }
                        }
                    },
                    PMode::Start => {},
                }
            },
        }
        i = i + 1;
    }
    let ghost st_end = PState {
        mode: mode,
        iface: iface@,
        peers: crate::config::peer_views(peers@),
        cur: cur@,
        seen_comment: seen_comment,
    };
    if matches!(mode, PMode::InPeer) {
        peers.push(cur);
        proof {
            assert(crate::config::peer_views(peers@) =~= flushed(st_end));
        }
    }
    let cfg = WireguardConfig { interface: iface, peers };
    proof {
        assert(cfg@ == ConfigView { interface: st_end.iface, peers: flushed(st_end) });
    }
    Ok(cfg)
}

} // verus!
