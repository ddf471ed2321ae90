//! Laws that relate several functions of the library, each stated as a
//! public proof over the specification functions that the executable
//! contracts use.

use vstd::prelude::*;

use crate::config::{ConfigView, HooksView, IfaceView, PeerView, ScriptView};
use crate::codec::{
    iface_entries, iface_entries_a, iface_lines, kv_line, kv_lines, peer_entries, ser_lines,
};
use crate::reconcile::{FieldCheck, check_field_spec, find_script, reconcile_spec};
use crate::scripts::{
    RoutingKeyword, ScriptErr, any_bind_ref, bind_placeholder, cmd_parts, first_bad_cmd,
    keyword_name, keyword_of, nonempty_parts, scan_lines, script_err_text, script_spec,
};
use crate::text;
use crate::text::{
    contains_sub, find_ch, match_at, replace_all, split_on, trim,
};

verus! {

// ---------------------------------------------------------------------
// Script command validation
// ---------------------------------------------------------------------
/// Every command produced by splitting a directive value is non-empty.
proof fn lemma_nonempty_parts_pos(pieces: Seq<Seq<char>>, j: int)
    requires
        0 <= j < nonempty_parts(pieces).len(),
    ensures
        nonempty_parts(pieces)[j].len() > 0,
    decreases pieces.len(),
{
    if pieces.len() > 0 {
        let t = trim(pieces[0]);
        let rest = nonempty_parts(pieces.drop_first());
        if t.len() > 0 {
            if j >= 1 {
                assert(nonempty_parts(pieces)[j] == rest[j - 1]);
                lemma_nonempty_parts_pos(pieces.drop_first(), j - 1);
            }
        } else {
            lemma_nonempty_parts_pos(pieces.drop_first(), j);
        }
    }
}

/// The command carried by a command-rejection error is one of the
/// directive's commands, hence non-empty.
proof fn lemma_scan_bad_cmd_nonempty(
    lines: Seq<Seq<char>>,
    i: int,
    h: HooksView,
    kw: RoutingKeyword,
    cmd: Seq<char>,
)
    requires
        scan_lines(lines, i, h) == Result::<HooksView, ScriptErr>::Err(
            ScriptErr::BadCommand { kw, cmd },
        ),
    ensures
        cmd.len() > 0,
    decreases lines.len() - i,
{
    if i < 0 || i >= lines.len() {
    } else {
        let l = trim(lines[i]);
        if l.len() == 0 || l[0] == '#' {
            lemma_scan_bad_cmd_nonempty(lines, i + 1, h, kw, cmd);
        } else {
            let e = find_ch(l, '=');
            if e < 0 {
            } else {
                let key = trim(l.subrange(0, e));
                let raw = l.subrange(e + 1, l.len() as int);
                match keyword_of(key) {
                    None => {},
                    Some(kw2) => {
                        let parts = cmd_parts(raw);
                        if parts.len() == 0 {
                        } else if kw2 != RoutingKeyword::FwMark && first_bad_cmd(parts) >= 0 {
                            crate::scripts::lemma_first_bad_cmd(parts);
                            lemma_nonempty_parts_pos(split_on(raw, ';'), first_bad_cmd(parts));
                        } else {
                            let joined = text::join_sep(parts, "; "@);
                            let bind = kw2 != RoutingKeyword::FwMark && any_bind_ref(parts);
                            lemma_scan_bad_cmd_nonempty(
                                lines,
                                i + 1,
                                crate::scripts::assign_kw(h, kw2, joined, bind),
                                kw,
                                cmd,
                            );
                        }
                    },
                }
            }
        }
    }
}

/// Law: a directive whose command list holds a command that does not
/// invoke the permitted routing tools is rejected, and the rendered
/// error names both the directive keyword and the offending command.
pub proof fn law_invalid_command_error_names_both(
    content: Seq<char>,
    name: Seq<char>,
    kw: RoutingKeyword,
    cmd: Seq<char>,
)
    requires
        script_spec(content) == Result::<HooksView, ScriptErr>::Err(
            ScriptErr::BadCommand { kw, cmd },
        ),
    ensures
        contains_sub(script_err_text(ScriptErr::BadCommand { kw, cmd }, name), keyword_name(kw)),
        contains_sub(script_err_text(ScriptErr::BadCommand { kw, cmd }, name), cmd),
{
    lemma_scan_bad_cmd_nonempty(
        split_on(content, '\n'),
        0,
        crate::scripts::empty_hooks_view(),
        kw,
        cmd,
    );
    let kname = keyword_name(kw);
    assert(kname.len() > 0) by {
        reveal_strlit("PreUp");
        reveal_strlit("PostUp");
        reveal_strlit("PreDown");
        reveal_strlit("PostDown");
        reveal_strlit("FwMark");
    }
    let a1 = "Invalid command '"@ + cmd;
    let a2 = a1 + "' for "@;
    let a3 = a2 + kname;
    let a4 = a3 + " in script '"@;
    let a5 = a4 + name;
    let msg = a5 + "'. Only iptables/ip/ip6tables allowed."@;
    assert(script_err_text(ScriptErr::BadCommand { kw, cmd }, name) == msg);
    // the command occurs right after its opening quote
    assert(match_at(a1, cmd, "Invalid command '"@.len() as int)) by {
        assert(a1.subrange(
            "Invalid command '"@.len() as int,
            "Invalid command '"@.len() + cmd.len() as int,
        ) =~= cmd);
    }
    text::lemma_contains_at(a1, cmd, "Invalid command '"@.len() as int);
    text::lemma_contains_extend_right(a1, "' for "@, cmd);
    text::lemma_contains_extend_right(a2, kname, cmd);
    text::lemma_contains_extend_right(a3, " in script '"@, cmd);
    text::lemma_contains_extend_right(a4, name, cmd);
    text::lemma_contains_extend_right(a5, "'. Only iptables/ip/ip6tables allowed."@, cmd);
    // the keyword occurs right after "' for "
    assert(match_at(a3, kname, a2.len() as int)) by {
        assert(a3.subrange(a2.len() as int, a2.len() + kname.len() as int) =~= kname);
    }
    text::lemma_contains_at(a3, kname, a2.len() as int);
    text::lemma_contains_extend_right(a3, " in script '"@, kname);
    text::lemma_contains_extend_right(a4, name, kname);
    text::lemma_contains_extend_right(a5, "'. Only iptables/ip/ip6tables allowed."@, kname);
}

// ---------------------------------------------------------------------
// Bind-interface detection
// ---------------------------------------------------------------------
/// Whether one raw line is an up/down directive with a command that
/// references the binding-interface placeholder.
pub open spec fn line_sets_bind(raw: Seq<char>) -> bool {
    let l = trim(raw);
    l.len() > 0 && l[0] != '#' && find_ch(l, '=') >= 0 && {
        let e = find_ch(l, '=');
        match keyword_of(trim(l.subrange(0, e))) {
            Some(kw) => kw != RoutingKeyword::FwMark && any_bind_ref(
                cmd_parts(l.subrange(e + 1, l.len() as int)),
            ),
            None => false,
        }
    }
}

/// The bind flag accumulated by a successful scan is the flag it
/// started with, or some remaining line that references the
/// placeholder.
proof fn lemma_scan_bind(lines: Seq<Seq<char>>, i: int, h: HooksView)
    requires
        0 <= i,
        scan_lines(lines, i, h).is_ok(),
    ensures
        scan_lines(lines, i, h)->Ok_0.has_bind_interface == (h.has_bind_interface || exists|
            j: int,
        | i <= j < lines.len() && line_sets_bind(#[trigger] lines[j])),
    decreases lines.len() - i,
{
    if i < 0 || i >= lines.len() {
    } else {
        let l = trim(lines[i]);
        if l.len() == 0 || l[0] == '#' {
            lemma_scan_bind(lines, i + 1, h);
            assert(!line_sets_bind(lines[i]));
            lemma_exists_step(lines, i, false);
            assert(scan_lines(lines, i, h) == scan_lines(lines, i + 1, h));
            assert(scan_lines(lines, i, h)->Ok_0.has_bind_interface == (h.has_bind_interface
                || exists|j: int| i <= j < lines.len() && line_sets_bind(#[trigger] lines[j])));
        } else {
            let e = find_ch(l, '=');
            if e < 0 {
            } else {
                let key = trim(l.subrange(0, e));
                let raw = l.subrange(e + 1, l.len() as int);
                match keyword_of(key) {
                    None => {},
                    Some(kw) => {
                        let parts = cmd_parts(raw);
                        if parts.len() == 0 {
                        } else if kw != RoutingKeyword::FwMark && first_bad_cmd(parts) >= 0 {
                        } else {
                            let joined = text::join_sep(parts, "; "@);
                            let bind = kw != RoutingKeyword::FwMark && any_bind_ref(parts);
                            let h2 = crate::scripts::assign_kw(h, kw, joined, bind);
                            lemma_scan_bind(lines, i + 1, h2);
                            assert(h2.has_bind_interface == (h.has_bind_interface || bind));
                            assert(line_sets_bind(lines[i]) == bind);
                            lemma_exists_step(lines, i, bind);
                            assert(scan_lines(lines, i, h) == scan_lines(lines, i + 1, h2));
                            assert(scan_lines(lines, i, h)->Ok_0.has_bind_interface == (
                            h.has_bind_interface || exists|j: int|
                                i <= j < lines.len() && line_sets_bind(#[trigger] lines[j])));
                        }
                    },
                }
            }
        }
    }
}

/// One step of the scan either contributes the current line's bind
/// reference or leaves the remaining range to decide.
proof fn lemma_exists_step(lines: Seq<Seq<char>>, i: int, here: bool)
    requires
        0 <= i < lines.len(),
        line_sets_bind(lines[i]) == here,
    ensures
        (exists|j: int| i <= j < lines.len() && line_sets_bind(#[trigger] lines[j])) == (here
            || exists|j: int| i + 1 <= j < lines.len() && line_sets_bind(#[trigger] lines[j])),
{
    if exists|j: int| i <= j < lines.len() && line_sets_bind(#[trigger] lines[j]) {
        let j = choose|j: int| i <= j < lines.len() && line_sets_bind(#[trigger] lines[j]);
        if j == i {
            assert(here);
        } else {
            assert(i + 1 <= j < lines.len() && line_sets_bind(lines[j]));
        }
    }
    if here {
        assert(i <= i < lines.len() && line_sets_bind(lines[i]));
    }
    if exists|j: int| i + 1 <= j < lines.len() && line_sets_bind(#[trigger] lines[j]) {
        let j = choose|j: int| i + 1 <= j < lines.len() && line_sets_bind(#[trigger] lines[j]);
        assert(i <= j < lines.len() && line_sets_bind(lines[j]));
    }
}

/// Law: a successfully parsed script has its bind flag set exactly
/// when some directive line of it (other than `FwMark`) holds a
/// command referencing the binding-interface placeholder.
pub proof fn law_bind_interface_detection(content: Seq<char>, h: HooksView)
    requires
        script_spec(content) == Result::<HooksView, ScriptErr>::Ok(h),
    ensures
        h.has_bind_interface == (exists|j: int|
            0 <= j < split_on(content, '\n').len() && line_sets_bind(
                #[trigger] split_on(content, '\n')[j],
            )),
{
    lemma_scan_bind(split_on(content, '\n'), 0, crate::scripts::empty_hooks_view());
}

// ---------------------------------------------------------------------
// Serialized lines come only from present fields
// ---------------------------------------------------------------------
/// The field value the serializer would emit under `k` in the
/// interface block: the bind-interface entry only under the flag,
/// nothing for an unknown key.
pub open spec fn iface_entry_of(ifc: IfaceView, k: Seq<char>) -> Option<Seq<char>> {
    if k == "# Name"@ {
        ifc.name
    } else if k == "# BindIface"@ {
        if ifc.has_script_bind_iface {
            ifc.binding_iface
        } else {
            None
        }
    } else if k == "# RoutingScriptName"@ {
        ifc.routing_script_name
    } else if k == "Address"@ {
        ifc.address
    } else if k == "ListenPort"@ {
        ifc.listen_port
    } else if k == "PrivateKey"@ {
        ifc.private_key
    } else if k == "DNS"@ {
        ifc.dns
    } else if k == "Table"@ {
        ifc.table
    } else if k == "MTU"@ {
        ifc.mtu
    } else if k == "PreUp"@ {
        ifc.pre_up
    } else if k == "PostUp"@ {
        ifc.post_up
    } else if k == "PreDown"@ {
        ifc.pre_down
    } else if k == "PostDown"@ {
        ifc.post_down
    } else if k == "FwMark"@ {
        ifc.fwmark
    } else {
        None
    }
}

/// The field value the serializer would emit under `k` in a peer
/// block.
pub open spec fn peer_entry_of(p: PeerView, k: Seq<char>) -> Option<Seq<char>> {
    if k == "# Name"@ {
        p.name
    } else if k == "AllowedIPs"@ {
        p.allowed_ips
    } else if k == "Endpoint"@ {
        p.endpoint
    } else if k == "PublicKey"@ {
        p.public_key
    } else if k == "PersistentKeepalive"@ {
        p.persistent_keepalive
    } else {
        None
    }
}

/// The interface keys are pairwise distinct.
pub proof fn lemma_iface_keys_distinct()
    ensures
        "# Name"@ != "# BindIface"@,
        "# Name"@ != "# RoutingScriptName"@,
        "# Name"@ != "Address"@,
        "# Name"@ != "ListenPort"@,
        "# Name"@ != "PrivateKey"@,
        "# Name"@ != "DNS"@,
        "# Name"@ != "Table"@,
        "# Name"@ != "MTU"@,
        "# Name"@ != "PreUp"@,
        "# Name"@ != "PostUp"@,
        "# Name"@ != "PreDown"@,
        "# Name"@ != "PostDown"@,
        "# Name"@ != "FwMark"@,
        "# BindIface"@ != "# RoutingScriptName"@,
        "# BindIface"@ != "Address"@,
        "# BindIface"@ != "ListenPort"@,
        "# BindIface"@ != "PrivateKey"@,
        "# BindIface"@ != "DNS"@,
        "# BindIface"@ != "Table"@,
        "# BindIface"@ != "MTU"@,
        "# BindIface"@ != "PreUp"@,
        "# BindIface"@ != "PostUp"@,
        "# BindIface"@ != "PreDown"@,
        "# BindIface"@ != "PostDown"@,
        "# BindIface"@ != "FwMark"@,
        "# RoutingScriptName"@ != "Address"@,
        "# RoutingScriptName"@ != "ListenPort"@,
        "# RoutingScriptName"@ != "PrivateKey"@,
        "# RoutingScriptName"@ != "DNS"@,
        "# RoutingScriptName"@ != "Table"@,
        "# RoutingScriptName"@ != "MTU"@,
        "# RoutingScriptName"@ != "PreUp"@,
        "# RoutingScriptName"@ != "PostUp"@,
        "# RoutingScriptName"@ != "PreDown"@,
        "# RoutingScriptName"@ != "PostDown"@,
        "# RoutingScriptName"@ != "FwMark"@,
        "Address"@ != "ListenPort"@,
        "Address"@ != "PrivateKey"@,
        "Address"@ != "DNS"@,
        "Address"@ != "Table"@,
        "Address"@ != "MTU"@,
        "Address"@ != "PreUp"@,
        "Address"@ != "PostUp"@,
        "Address"@ != "PreDown"@,
        "Address"@ != "PostDown"@,
        "Address"@ != "FwMark"@,
        "ListenPort"@ != "PrivateKey"@,
        "ListenPort"@ != "DNS"@,
        "ListenPort"@ != "Table"@,
        "ListenPort"@ != "MTU"@,
        "ListenPort"@ != "PreUp"@,
        "ListenPort"@ != "PostUp"@,
        "ListenPort"@ != "PreDown"@,
        "ListenPort"@ != "PostDown"@,
        "ListenPort"@ != "FwMark"@,
        "PrivateKey"@ != "DNS"@,
        "PrivateKey"@ != "Table"@,
        "PrivateKey"@ != "MTU"@,
        "PrivateKey"@ != "PreUp"@,
        "PrivateKey"@ != "PostUp"@,
        "PrivateKey"@ != "PreDown"@,
        "PrivateKey"@ != "PostDown"@,
        "PrivateKey"@ != "FwMark"@,
        "DNS"@ != "Table"@,
        "DNS"@ != "MTU"@,
        "DNS"@ != "PreUp"@,
        "DNS"@ != "PostUp"@,
        "DNS"@ != "PreDown"@,
        "DNS"@ != "PostDown"@,
        "DNS"@ != "FwMark"@,
        "Table"@ != "MTU"@,
        "Table"@ != "PreUp"@,
        "Table"@ != "PostUp"@,
        "Table"@ != "PreDown"@,
        "Table"@ != "PostDown"@,
        "Table"@ != "FwMark"@,
        "MTU"@ != "PreUp"@,
        "MTU"@ != "PostUp"@,
        "MTU"@ != "PreDown"@,
        "MTU"@ != "PostDown"@,
        "MTU"@ != "FwMark"@,
        "PreUp"@ != "PostUp"@,
        "PreUp"@ != "PreDown"@,
        "PreUp"@ != "PostDown"@,
        "PreUp"@ != "FwMark"@,
        "PostUp"@ != "PreDown"@,
        "PostUp"@ != "PostDown"@,
        "PostUp"@ != "FwMark"@,
        "PreDown"@ != "PostDown"@,
        "PreDown"@ != "FwMark"@,
        "PostDown"@ != "FwMark"@,
{
    reveal_strlit("# Name");
    reveal_strlit("# BindIface");
    reveal_strlit("# RoutingScriptName");
    reveal_strlit("Address");
    reveal_strlit("ListenPort");
    reveal_strlit("PrivateKey");
    reveal_strlit("DNS");
    reveal_strlit("Table");
    reveal_strlit("MTU");
    reveal_strlit("PreUp");
    reveal_strlit("PostUp");
    reveal_strlit("PreDown");
    reveal_strlit("PostDown");
    reveal_strlit("FwMark");
    assert("# Name"@.len() == 6);
    assert("# BindIface"@.len() == 11);
    assert("# RoutingScriptName"@.len() == 19);
    assert("Address"@.len() == 7);
    assert("ListenPort"@.len() == 10);
    assert("PrivateKey"@.len() == 10);
    assert("DNS"@.len() == 3);
    assert("Table"@.len() == 5);
    assert("MTU"@.len() == 3);
    assert("PreUp"@.len() == 5);
    assert("PostUp"@.len() == 6);
    assert("PreDown"@.len() == 7);
    assert("PostDown"@.len() == 8);
    assert("FwMark"@.len() == 6);
    assert("ListenPort"@[0] != "PrivateKey"@[0]);
    assert("DNS"@[0] != "MTU"@[0]);
    assert("Table"@[0] != "PreUp"@[0]);
    assert("# Name"@[0] != "PostUp"@[0]);
    assert("# Name"@[0] != "FwMark"@[0]);
    assert("PostUp"@[0] != "FwMark"@[0]);
    assert("Address"@[0] != "PreDown"@[0]);
    assert("PreUp"@[2] != "PostUp"@[2]);
}

/// The peer keys are pairwise distinct.
pub proof fn lemma_peer_keys_distinct()
    ensures
        "# Name"@ != "AllowedIPs"@,
        "# Name"@ != "Endpoint"@,
        "# Name"@ != "PublicKey"@,
        "# Name"@ != "PersistentKeepalive"@,
        "AllowedIPs"@ != "Endpoint"@,
        "AllowedIPs"@ != "PublicKey"@,
        "AllowedIPs"@ != "PersistentKeepalive"@,
        "Endpoint"@ != "PublicKey"@,
        "Endpoint"@ != "PersistentKeepalive"@,
        "PublicKey"@ != "PersistentKeepalive"@,
{
    reveal_strlit("# Name");
    reveal_strlit("AllowedIPs");
    reveal_strlit("Endpoint");
    reveal_strlit("PublicKey");
    reveal_strlit("PersistentKeepalive");
    assert("# Name"@[0] != "AllowedIPs"@[0]);
    assert("# Name"@[0] != "Endpoint"@[0]);
    assert("# Name"@[0] != "PublicKey"@[0]);
    assert("# Name"@[0] != "PersistentKeepalive"@[0]);
    assert("AllowedIPs"@[0] != "Endpoint"@[0]);
    assert("AllowedIPs"@[0] != "PublicKey"@[0]);
    assert("AllowedIPs"@[0] != "PersistentKeepalive"@[0]);
    assert("Endpoint"@[0] != "PublicKey"@[0]);
    assert("Endpoint"@[0] != "PersistentKeepalive"@[0]);
    assert("PublicKey"@[1] != "PersistentKeepalive"@[1]);
}

/// Law (absent fields omitted): every entry the serializer emits for
/// the interface block carries the key of a field that is present with
/// exactly that value; an absent field — and the bind interface while
/// the flag is off — contributes no entry, hence no `Key = ` line.
#[verifier::rlimit(100)]
#[verifier::spinoff_prover]
proof fn lemma_iface_entries_a_of(ifc: IfaceView, j: int)
    requires
        0 <= j < crate::codec::iface_entries_a(ifc).len(),
    ensures
        iface_entry_of(ifc, crate::codec::iface_entries_a(ifc)[j].0) == Some(
            crate::codec::iface_entries_a(ifc)[j].1,
        ),
{
    lemma_iface_keys_distinct();
}

#[verifier::rlimit(100)]
#[verifier::spinoff_prover]
proof fn lemma_iface_entries_b_of(ifc: IfaceView, j: int)
    requires
        0 <= j < crate::codec::iface_entries_b(ifc).len(),
    ensures
        iface_entry_of(ifc, crate::codec::iface_entries_b(ifc)[j].0) == Some(
            crate::codec::iface_entries_b(ifc)[j].1,
        ),
{
    lemma_iface_keys_distinct();
}

pub proof fn law_iface_lines_only_for_present_fields(ifc: IfaceView, j: int)
    requires
        0 <= j < iface_entries(ifc).len(),
    ensures
        iface_entry_of(ifc, iface_entries(ifc)[j].0) == Some(iface_entries(ifc)[j].1),
{
    let a = crate::codec::iface_entries_a(ifc);
    let b = crate::codec::iface_entries_b(ifc);
    if j < a.len() {
        assert(iface_entries(ifc)[j] == a[j]);
        lemma_iface_entries_a_of(ifc, j);
    } else {
        assert(iface_entries(ifc)[j] == b[j - a.len()]);
        lemma_iface_entries_b_of(ifc, j - a.len());
    }
}

/// Law (absent fields omitted), peer block: every emitted entry
/// carries the key of a present field with exactly that value.
pub proof fn law_peer_lines_only_for_present_fields(p: PeerView, j: int)
    requires
        0 <= j < peer_entries(p).len(),
    ensures
        peer_entry_of(p, peer_entries(p)[j].0) == Some(peer_entries(p)[j].1),
{
    lemma_peer_keys_distinct();
}

/// Law (conditional bind-interface line): with the script bind flag
/// off, no interface entry carries the bind-interface key, even if a
/// binding interface is set; with the flag on and an interface set,
/// exactly its line appears among the serialized lines.
pub proof fn law_bind_iface_line_conditional(c: ConfigView)
    ensures
        !c.interface.has_script_bind_iface ==> forall|j: int|
            0 <= j < iface_entries(c.interface).len() ==> (#[trigger] iface_entries(
                c.interface,
            )[j]).0 != "# BindIface"@,
        c.interface.has_script_bind_iface && c.interface.binding_iface.is_some() ==> exists|i: int|
            0 <= i < ser_lines(c).len() && #[trigger] ser_lines(c)[i] == kv_line(
                "# BindIface"@,
                c.interface.binding_iface.unwrap(),
            ),
{
    let ifc = c.interface;
    lemma_iface_keys_distinct();
    if !ifc.has_script_bind_iface {
        assert forall|j: int| 0 <= j < iface_entries(ifc).len() implies (#[trigger] iface_entries(
            ifc,
        )[j]).0 != "# BindIface"@ by {
            law_iface_lines_only_for_present_fields(ifc, j);
            if iface_entries(ifc)[j].0 == "# BindIface"@ {
                assert(iface_entry_of(ifc, "# BindIface"@) == None::<Seq<char>>);
            }
        }
    }
    if ifc.has_script_bind_iface && ifc.binding_iface.is_some() {
        let v = ifc.binding_iface.unwrap();
        let j: int = if ifc.name.is_some() {
            1
        } else {
            0
        };
        assert(iface_entries_a(ifc)[j] == ("# BindIface"@, v));
        assert(iface_entries(ifc)[j] == ("# BindIface"@, v));
        assert(kv_lines(iface_entries(ifc))[j] == kv_line("# BindIface"@, v));
        assert(iface_lines(ifc)[j + 1] == kv_line("# BindIface"@, v));
        assert(ser_lines(c)[j + 1] == kv_line("# BindIface"@, v));
    }
}

// ---------------------------------------------------------------------
// Reconciliation normalization
// ---------------------------------------------------------------------
/// The inserted text cannot match a shifted copy of itself; interface
/// names like `eth0` satisfy this.
pub open spec fn no_self_overlap(i: Seq<char>) -> bool {
    forall|d: int|
        0 < d < i.len() ==> i.subrange(d, i.len() as int) != i.subrange(0, i.len() - d)
}

/// Law: a hook value built from a template by substituting the binding
/// interface for the placeholder compares as a match against that
/// template, because the check substitutes the interface back.
pub proof fn law_substituted_hook_matches(t: Seq<char>, iface: Seq<char>)
    requires
        iface.len() > 0,
        !contains_sub(t, iface),
        no_self_overlap(iface),
    ensures
        check_field_spec(
            Some(replace_all(t, bind_placeholder(), iface)),
            Some(t),
            true,
            Some(iface),
        ) == FieldCheck::Match,
{
    assert(bind_placeholder().len() > 0) by {
        reveal_strlit("%bindIface");
    }
    text::lemma_replace_round_trip(t, bind_placeholder(), iface);
}

/// Law (reconciliation normalization): a configuration whose only hook
/// is the template's `pre_up` with the literal interface name
/// substituted in place of the placeholder, and whose binding
/// interface is that name, reconciles successfully against the
/// template that still contains the placeholder.
pub proof fn law_reconciliation_normalization(
    scripts: Seq<ScriptView>,
    cfg: ConfigView,
    t: Seq<char>,
)
    requires
        cfg.interface.routing_script_name.is_some(),
        find_script(scripts, cfg.interface.routing_script_name.unwrap()) >= 0,
        ({
            let s = scripts[find_script(scripts, cfg.interface.routing_script_name.unwrap())];
            s.routing_hooks.pre_up == Some(t) && s.routing_hooks.post_up.is_none()
                && s.routing_hooks.pre_down.is_none() && s.routing_hooks.post_down.is_none()
                && s.routing_hooks.fwmark.is_none()
        }),
        cfg.interface.binding_iface.is_some(),
        cfg.interface.pre_up == Some(
            replace_all(t, bind_placeholder(), cfg.interface.binding_iface.unwrap()),
        ),
        cfg.interface.post_up.is_none(),
        cfg.interface.pre_down.is_none(),
        cfg.interface.post_down.is_none(),
        cfg.interface.fwmark.is_none(),
        cfg.interface.binding_iface.unwrap().len() > 0,
        !contains_sub(t, cfg.interface.binding_iface.unwrap()),
        no_self_overlap(cfg.interface.binding_iface.unwrap()),
    ensures
        reconcile_spec(scripts, cfg).is_ok(),
{
    law_substituted_hook_matches(t, cfg.interface.binding_iface.unwrap());
}

} // verus!
