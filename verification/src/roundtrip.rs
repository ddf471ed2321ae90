//! The codec round-trip law: serializing a configuration, parsing the
//! text back and serializing again reproduces the first text, for
//! configurations written with the explicit comment-key convention.

use vstd::prelude::*;

use crate::codec::{
    LineKind, PMode, PState, ParseErr, classify_line, iface_entries, iface_entries_a,
    iface_entries_b, iface_lines, iface_set, init_pstate, kv_line, kv_lines, parse_lines,
    parse_spec, peer_entries, peer_lines, peer_set, peers_lines, ser_lines, ser_spec,
};
use crate::config::{ConfigView, IfaceView, PeerView, empty_iface_view, empty_peer_view};
use crate::ip::ip_valid;
use crate::laws::{
    iface_entry_of, law_iface_lines_only_for_present_fields, law_peer_lines_only_for_present_fields,
    peer_entry_of,
};
use crate::text;
use crate::text::{is_space, split_on, trim, unlines};

verus! {

// ---------------------------------------------------------------------
// Well-formed lines and values
// ---------------------------------------------------------------------
/// A line that holds no newline, so line splitting recovers it.
pub open spec fn no_nl(l: Seq<char>) -> bool {
    forall|x: int| 0 <= x < l.len() ==> l[x] != '\n'
}

/// A key as the serializer writes one: non-empty, no whitespace at its
/// ends, not opening a section, holding neither `=` nor a newline.
pub open spec fn key_wf(k: Seq<char>) -> bool {
    k.len() > 0 && !is_space(k[0]) && !is_space(k[k.len() - 1]) && k[0] != '[' && (forall|x: int|
        0 <= x < k.len() ==> k[x] != '=') && no_nl(k)
}

/// A value that survives the line format: already trimmed, no newline.
pub open spec fn val_wf(v: Seq<char>) -> bool {
    trim(v) == v && no_nl(v)
}

/// An absent field, or a present one whose value survives the format.
pub open spec fn opt_wf(o: Option<Seq<char>>) -> bool {
    match o {
        Some(v) => val_wf(v),
        None => true,
    }
}

// ---------------------------------------------------------------------
// Splitting what unlines built
// ---------------------------------------------------------------------
/// Splitting the joined lines on newlines recovers the lines, plus the
/// empty piece after the final newline.
proof fn lemma_split_unlines(lines: Seq<Seq<char>>)
    requires
        forall|j: int| 0 <= j < lines.len() ==> no_nl(#[trigger] lines[j]),
    ensures
        split_on(unlines(lines), '\n') == lines + seq![Seq::<char>::empty()],
    decreases lines.len(),
{
    if lines.len() == 0 {
        let s = unlines(lines);
        assert(s.len() == 0);
        text::lemma_find_ch(s, '\n');
        assert(split_on(s, '\n') == seq![s]);
        assert(lines + seq![Seq::<char>::empty()] =~= seq![s]);
    } else {
        let l0 = lines[0];
        let rest_text = unlines(lines.drop_first());
        let s = unlines(lines);
        assert(s == l0 + seq!['\n'] + rest_text);
        assert(s[l0.len() as int] == '\n') by {
            assert((l0 + seq!['\n'])[l0.len() as int] == '\n');
        }
        assert forall|j: int| 0 <= j < l0.len() implies s[j] != '\n' by {
            assert(s[j] == l0[j]);
        }
        text::lemma_find_ch_at(s, '\n', l0.len() as int);
        assert(s.subrange(0, l0.len() as int) =~= l0);
        assert(s.subrange(l0.len() as int + 1, s.len() as int) =~= rest_text);
        assert(split_on(s, '\n') == seq![l0] + split_on(rest_text, '\n'));
        assert(forall|j: int|
            0 <= j < lines.drop_first().len() ==> no_nl(#[trigger] lines.drop_first()[j]));
        lemma_split_unlines(lines.drop_first());
        assert(seq![l0] + (lines.drop_first() + seq![Seq::<char>::empty()]) =~= lines + seq![
            Seq::<char>::empty(),
        ]);
    }
}

// ---------------------------------------------------------------------
// Classifying the serializer's lines
// ---------------------------------------------------------------------
/// The fixed lines classify as expected.
proof fn lemma_classify_fixed()
    ensures
        classify_line("[Interface]"@) == LineKind::Section("Interface"@),
        classify_line("[Peer]"@) == LineKind::Section("Peer"@),
        classify_line(Seq::<char>::empty()) == LineKind::Blank,
        no_nl("[Interface]"@),
        no_nl("[Peer]"@),
        no_nl(Seq::<char>::empty()),
{
    reveal_strlit("[Interface]");
    reveal_strlit("[Peer]");
    reveal_strlit("Interface");
    reveal_strlit("Peer");
    let li = "[Interface]"@;
    text::lemma_trim_id(li);
    assert(li[0] == '[' && li[li.len() - 1] == ']');
    assert(li.subrange(1, li.len() - 1) =~= "Interface"@);
    text::lemma_trim_id("Interface"@);
    let lp = "[Peer]"@;
    text::lemma_trim_id(lp);
    assert(lp[0] == '[' && lp[lp.len() - 1] == ']');
    assert(lp.subrange(1, lp.len() - 1) =~= "Peer"@);
    text::lemma_trim_id("Peer"@);
    text::lemma_trim_id(Seq::<char>::empty());
}

/// A serialized `Key = value` line classifies back to its key and
/// value.
proof fn lemma_classify_kv(k: Seq<char>, v: Seq<char>)
    requires
        key_wf(k),
        val_wf(v),
    ensures
        classify_line(kv_line(k, v)) == LineKind::Attr(k, v),
        no_nl(kv_line(k, v)),
{
    reveal_strlit(" = ");
    let l0 = kv_line(k, v);
    assert(" = "@.len() == 3);
    assert(" = "@[0] == ' ' && " = "@[1] == '=' && " = "@[2] == ' ');
    assert(l0[0] == k[0]);
    assert forall|x: int| 0 <= x < l0.len() implies l0[x] != '\n' by {
        if x < k.len() {
            assert(l0[x] == k[x]);
        } else if x < k.len() + 3 {
            assert(l0[x] == " = "@[x - k.len()]);
        } else {
            assert(l0[x] == v[x - k.len() - 3]);
        }
    }
    if v.len() > 0 {
        text::lemma_trim_ends(v);
        assert(l0[l0.len() - 1] == v[v.len() - 1]);
        text::lemma_trim_id(l0);
        let t = l0;
        assert(t[k.len() as int + 1] == '=') by {
            assert(l0[k.len() as int + 1] == " = "@[1]);
        }
        assert forall|j: int| 0 <= j < k.len() as int + 1 implies t[j] != '=' by {
            if j < k.len() {
                assert(t[j] == k[j]);
            } else {
                assert(t[j] == " = "@[0]);
            }
        }
        text::lemma_find_ch_at(t, '=', k.len() as int + 1);
        assert(t[0] != '[');
        assert(t.subrange(0, k.len() as int + 1) =~= k + seq![' ']);
        text::lemma_trim_with_trailing_space(k);
        assert(t.subrange(k.len() as int + 2, t.len() as int) =~= seq![' '] + v);
        text::lemma_trim_with_leading_space(v);
    } else {
        assert(v =~= Seq::<char>::empty());
        assert(l0 =~= k + seq![' ', '=', ' ']);
        let dropped = k + seq![' ', '='];
        assert(l0[l0.len() - 1] == ' ');
        assert(l0.drop_last() =~= dropped);
        assert(dropped[dropped.len() - 1] == '=');
        assert(!is_space('='));
        assert(text::trim_front(l0) == l0);
        assert(text::trim_back(l0) == text::trim_back(dropped));
        assert(text::trim_back(dropped) == dropped);
        assert(trim(l0) == dropped);
        let t = dropped;
        assert(t[k.len() as int + 1] == '=');
        assert forall|j: int| 0 <= j < k.len() as int + 1 implies t[j] != '=' by {
            if j < k.len() {
                assert(t[j] == k[j]);
            }
        }
        text::lemma_find_ch_at(t, '=', k.len() as int + 1);
        assert(t[0] == k[0] && t[0] != '[');
        assert(t[t.len() - 1] == '=');
        assert(t.subrange(0, k.len() as int + 1) =~= k + seq![' ']);
        text::lemma_trim_with_trailing_space(k);
        assert(t.subrange(k.len() as int + 2, t.len() as int) =~= Seq::<char>::empty());
        assert(trim(Seq::<char>::empty()) == Seq::<char>::empty());
    }
}

// ---------------------------------------------------------------------
// Keys and folds
// ---------------------------------------------------------------------
/// The interface keys the serializer uses.
pub open spec fn is_iface_key(k: Seq<char>) -> bool {
    k == "# Name"@ || k == "# BindIface"@ || k == "# RoutingScriptName"@ || k == "Address"@ || k
        == "ListenPort"@ || k == "PrivateKey"@ || k == "DNS"@ || k == "Table"@ || k == "MTU"@ || k
        == "PreUp"@ || k == "PostUp"@ || k == "PreDown"@ || k == "PostDown"@ || k == "FwMark"@
}

/// The peer keys the serializer uses.
pub open spec fn is_peer_key(k: Seq<char>) -> bool {
    k == "# Name"@ || k == "AllowedIPs"@ || k == "Endpoint"@ || k == "PublicKey"@ || k
        == "PersistentKeepalive"@
}

/// All serializer keys are well-formed.
proof fn lemma_keys_wf()
    ensures
        forall|k: Seq<char>| is_iface_key(k) ==> #[trigger] key_wf(k),
        forall|k: Seq<char>| is_peer_key(k) ==> #[trigger] key_wf(k),
{
    reveal_strlit("# Name");
    reveal_strlit("# BindIface");
    reveal_strlit("# RoutingScriptName");
    reveal_strlit("Address");
    reveal_strlit("ListenPort");
    reveal_strlit("PrivateKey");
    reveal_strlit("DNS");
    reveal_strlit("Table");
    reveal_strlit("MTU");
    reveal_strlit("PreUp");
    reveal_strlit("PostUp");
    reveal_strlit("PreDown");
    reveal_strlit("PostDown");
    reveal_strlit("FwMark");
    reveal_strlit("AllowedIPs");
    reveal_strlit("Endpoint");
    reveal_strlit("PublicKey");
    reveal_strlit("PersistentKeepalive");
    assert(key_wf("# Name"@));
    assert(key_wf("# BindIface"@));
    assert(key_wf("# RoutingScriptName"@));
    assert(key_wf("Address"@));
    assert(key_wf("ListenPort"@));
    assert(key_wf("PrivateKey"@));
    assert(key_wf("DNS"@));
    assert(key_wf("Table"@));
    assert(key_wf("MTU"@));
    assert(key_wf("PreUp"@));
    assert(key_wf("PostUp"@));
    assert(key_wf("PreDown"@));
    assert(key_wf("PostDown"@));
    assert(key_wf("FwMark"@));
    assert(key_wf("AllowedIPs"@));
    assert(key_wf("Endpoint"@));
    assert(key_wf("PublicKey"@));
    assert(key_wf("PersistentKeepalive"@));
}

/// An interface entry the parser will accept.
pub open spec fn iface_entry_accepted(k: Seq<char>, v: Seq<char>) -> bool {
    is_iface_key(k) && (k == "Address"@ ==> ip_valid(Some(v)))
}

/// The interface after a run of accepted assignments.
pub open spec fn iface_fold(ifc: IfaceView, entries: Seq<(Seq<char>, Seq<char>)>) -> IfaceView
    decreases entries.len(),
{
    if entries.len() == 0 {
        ifc
    } else {
        match iface_set(ifc, entries[0].0, entries[0].1) {
            Ok(i2) => iface_fold(i2, entries.drop_first()),
            Err(_) => ifc,
        }
    }
}

/// The peer after a run of accepted assignments.
pub open spec fn peer_fold(p: PeerView, entries: Seq<(Seq<char>, Seq<char>)>) -> PeerView
    decreases entries.len(),
{
    if entries.len() == 0 {
        p
    } else {
        match peer_set(p, entries[0].0, entries[0].1) {
            Ok(p2) => peer_fold(p2, entries.drop_first()),
            Err(_) => p,
        }
    }
}

// ---------------------------------------------------------------------
// Consuming a run of assignment lines
// ---------------------------------------------------------------------
/// Consuming the serialized interface assignments folds them into the
/// state's interface.
proof fn lemma_parse_iface_entries(
    lines: Seq<Seq<char>>,
    i: int,
    entries: Seq<(Seq<char>, Seq<char>)>,
    st: PState,
)
    requires
        st.mode == PMode::InIface,
        0 <= i,
        i + entries.len() <= lines.len(),
        forall|j: int|
            0 <= j < entries.len() ==> lines[i + j] == kv_line(
                (#[trigger] entries[j]).0,
                entries[j].1,
            ),
        forall|j: int| 0 <= j < entries.len() ==> iface_entry_accepted((#[trigger] entries[j]).0, entries[j].1),
        forall|j: int| 0 <= j < entries.len() ==> val_wf((#[trigger] entries[j]).1),
    ensures
        parse_lines(lines, i, st) == parse_lines(
            lines,
            i + entries.len(),
            PState { iface: iface_fold(st.iface, entries), ..st },
        ),
    decreases entries.len(),
{
    if entries.len() == 0 {
        assert(PState { iface: iface_fold(st.iface, entries), ..st } == st);
    } else {
        let k = entries[0].0;
        let v = entries[0].1;
        lemma_keys_wf();
        lemma_classify_kv(k, v);
        assert(lines[i] == kv_line(k, v));
        assert(classify_line(lines[i]) == LineKind::Attr(k, v));
        crate::laws::lemma_iface_keys_distinct();
        let r = iface_set(st.iface, k, v);
        assert(r.is_ok());
        let ifc2 = r->Ok_0;
        let st2 = PState { iface: ifc2, ..st };
        assert(parse_lines(lines, i, st) == parse_lines(lines, i + 1, st2));
        assert forall|j: int|
            0 <= j < entries.drop_first().len() implies lines[i + 1 + j] == kv_line(
            (#[trigger] entries.drop_first()[j]).0,
            entries.drop_first()[j].1,
        ) by {
            assert(entries.drop_first()[j] == entries[j + 1]);
        }
        assert(forall|j: int|
            0 <= j < entries.drop_first().len() ==> #[trigger] entries.drop_first()[j]
                == entries[j + 1]);
        lemma_parse_iface_entries(lines, i + 1, entries.drop_first(), st2);
        assert(iface_fold(st.iface, entries) == iface_fold(ifc2, entries.drop_first()));
    }
}

/// Consuming the serialized peer assignments folds them into the
/// state's current peer.
proof fn lemma_parse_peer_entries(
    lines: Seq<Seq<char>>,
    i: int,
    entries: Seq<(Seq<char>, Seq<char>)>,
    st: PState,
)
    requires
        st.mode == PMode::InPeer,
        0 <= i,
        i + entries.len() <= lines.len(),
        forall|j: int|
            0 <= j < entries.len() ==> lines[i + j] == kv_line(
                (#[trigger] entries[j]).0,
                entries[j].1,
            ),
        forall|j: int| 0 <= j < entries.len() ==> is_peer_key((#[trigger] entries[j]).0),
        forall|j: int| 0 <= j < entries.len() ==> val_wf((#[trigger] entries[j]).1),
    ensures
        parse_lines(lines, i, st) == parse_lines(
            lines,
            i + entries.len(),
            PState { cur: peer_fold(st.cur, entries), ..st },
        ),
    decreases entries.len(),
{
    if entries.len() == 0 {
        assert(PState { cur: peer_fold(st.cur, entries), ..st } == st);
    } else {
        let k = entries[0].0;
        let v = entries[0].1;
        lemma_keys_wf();
        lemma_classify_kv(k, v);
        assert(lines[i] == kv_line(k, v));
        assert(classify_line(lines[i]) == LineKind::Attr(k, v));
        crate::laws::lemma_peer_keys_distinct();
        let r = peer_set(st.cur, k, v);
        assert(r.is_ok());
        let p2 = r->Ok_0;
        let st2 = PState { cur: p2, ..st };
        assert(parse_lines(lines, i, st) == parse_lines(lines, i + 1, st2));
        assert forall|j: int|
            0 <= j < entries.drop_first().len() implies lines[i + 1 + j] == kv_line(
            (#[trigger] entries.drop_first()[j]).0,
            entries.drop_first()[j].1,
        ) by {
            assert(entries.drop_first()[j] == entries[j + 1]);
        }
        assert(forall|j: int|
            0 <= j < entries.drop_first().len() ==> #[trigger] entries.drop_first()[j]
                == entries[j + 1]);
        lemma_parse_peer_entries(lines, i + 1, entries.drop_first(), st2);
        assert(peer_fold(st.cur, entries) == peer_fold(p2, entries.drop_first()));
    }
}

// ---------------------------------------------------------------------
// Folding a serialized block restores its record
// ---------------------------------------------------------------------
/// Folding splits over concatenation when every key is accepted.
proof fn lemma_peer_fold_concat(p: PeerView, a: Seq<(Seq<char>, Seq<char>)>, b: Seq<(Seq<char>, Seq<char>)>)
    requires
        forall|j: int| 0 <= j < a.len() ==> is_peer_key((#[trigger] a[j]).0),
    ensures
        peer_fold(p, a + b) == peer_fold(peer_fold(p, a), b),
    decreases a.len(),
{
    if a.len() == 0 {
        assert(a + b =~= b);
    } else {
        assert((a + b)[0] == a[0]);
        let r = peer_set(p, a[0].0, a[0].1);
        assert(r.is_ok());
        assert((a + b).drop_first() =~= a.drop_first() + b);
        assert(forall|j: int|
            0 <= j < a.drop_first().len() ==> #[trigger] a.drop_first()[j] == a[j + 1]);
        lemma_peer_fold_concat(r->Ok_0, a.drop_first(), b);
    }
}

/// Folding splits over concatenation when every entry is accepted.
proof fn lemma_iface_fold_concat(
    ifc: IfaceView,
    a: Seq<(Seq<char>, Seq<char>)>,
    b: Seq<(Seq<char>, Seq<char>)>,
)
    requires
        forall|j: int| 0 <= j < a.len() ==> iface_entry_accepted((#[trigger] a[j]).0, a[j].1),
    ensures
        iface_fold(ifc, a + b) == iface_fold(iface_fold(ifc, a), b),
    decreases a.len(),
{
    if a.len() == 0 {
        assert(a + b =~= b);
    } else {
        assert((a + b)[0] == a[0]);
        let r = iface_set(ifc, a[0].0, a[0].1);
        assert(r.is_ok());
        assert((a + b).drop_first() =~= a.drop_first() + b);
        assert(forall|j: int|
            0 <= j < a.drop_first().len() ==> #[trigger] a.drop_first()[j] == a[j + 1]);
        lemma_iface_fold_concat(r->Ok_0, a.drop_first(), b);
    }
}

/// Folding one optional entry sets exactly that field.
proof fn lemma_fold_single_peer(p: PeerView, k: Seq<char>, v: Seq<char>)
    requires
        is_peer_key(k),
    ensures
        peer_fold(p, seq![(k, v)]) == peer_set(p, k, v)->Ok_0,
{
    let e = seq![(k, v)];
    assert(e.len() == 1);
    assert(e[0] == (k, v));
    assert(e.drop_first() =~= Seq::<(Seq<char>, Seq<char>)>::empty());
    let r = peer_set(p, k, v);
    assert(r.is_ok());
    assert(peer_fold(r->Ok_0, Seq::<(Seq<char>, Seq<char>)>::empty()) == r->Ok_0);
}

/// Folding one optional entry sets exactly that field.
proof fn lemma_fold_single_iface(ifc: IfaceView, k: Seq<char>, v: Seq<char>)
    requires
        iface_entry_accepted(k, v),
    ensures
        iface_fold(ifc, seq![(k, v)]) == iface_set(ifc, k, v)->Ok_0,
{
    let e = seq![(k, v)];
    assert(e.len() == 1);
    assert(e[0] == (k, v));
    assert(e.drop_first() =~= Seq::<(Seq<char>, Seq<char>)>::empty());
    let r = iface_set(ifc, k, v);
    assert(r.is_ok());
    assert(iface_fold(r->Ok_0, Seq::<(Seq<char>, Seq<char>)>::empty()) == r->Ok_0);
}

/// A peer whose present values survive the format.
pub open spec fn peer_wf(p: PeerView) -> bool {
    opt_wf(p.name) && opt_wf(p.allowed_ips) && opt_wf(p.endpoint) && opt_wf(p.public_key)
        && opt_wf(p.persistent_keepalive)
}

/// Replaying a peer's serialized entries on the empty peer restores
/// the peer.
#[verifier::rlimit(100)]
#[verifier::spinoff_prover]
proof fn lemma_peer_fold_id(p: PeerView)
    ensures
        peer_fold(empty_peer_view(), peer_entries(p)) == p,
{
    crate::laws::lemma_peer_keys_distinct();
    let c1 = crate::codec::opt_entry("# Name"@, p.name);
    let c2 = crate::codec::opt_entry("AllowedIPs"@, p.allowed_ips);
    let c3 = crate::codec::opt_entry("Endpoint"@, p.endpoint);
    let c4 = crate::codec::opt_entry("PublicKey"@, p.public_key);
    let c5 = crate::codec::opt_entry("PersistentKeepalive"@, p.persistent_keepalive);
    assert(peer_entries(p) == c1 + c2 + c3 + c4 + c5);
    let x0 = empty_peer_view();
    lemma_iface_or_peer_chunk_p(x0, c1, "# Name"@, p.name);
    let x1 = peer_fold(x0, c1);
    lemma_peer_fold_concat(x0, c1, c2 + c3 + c4 + c5);
    assert(c1 + c2 + c3 + c4 + c5 =~= c1 + (c2 + c3 + c4 + c5));
    lemma_iface_or_peer_chunk_p(x1, c2, "AllowedIPs"@, p.allowed_ips);
    let x2 = peer_fold(x1, c2);
    lemma_peer_fold_concat(x1, c2, c3 + c4 + c5);
    assert(c2 + c3 + c4 + c5 =~= c2 + (c3 + c4 + c5));
    lemma_iface_or_peer_chunk_p(x2, c3, "Endpoint"@, p.endpoint);
    let x3 = peer_fold(x2, c3);
    lemma_peer_fold_concat(x2, c3, c4 + c5);
    assert(c3 + c4 + c5 =~= c3 + (c4 + c5));
    lemma_iface_or_peer_chunk_p(x3, c4, "PublicKey"@, p.public_key);
    let x4 = peer_fold(x3, c4);
    lemma_peer_fold_concat(x3, c4, c5);
    lemma_iface_or_peer_chunk_p(x4, c5, "PersistentKeepalive"@, p.persistent_keepalive);
    let x5 = peer_fold(x4, c5);
    assert(peer_fold(x0, c1 + (c2 + (c3 + (c4 + c5)))) == x5) by {
        assert(c1 + c2 + c3 + c4 + c5 =~= c1 + (c2 + (c3 + (c4 + c5))));
        lemma_peer_fold_concat(x0, c1, c2 + (c3 + (c4 + c5)));
        lemma_peer_fold_concat(x1, c2, c3 + (c4 + c5));
        lemma_peer_fold_concat(x2, c3, c4 + c5);
        lemma_peer_fold_concat(x3, c4, c5);
    }
    assert(x5 == p);
}

/// Folding one peer chunk: present fields are assigned, absent ones
/// skipped.
proof fn lemma_iface_or_peer_chunk_p(x: PeerView, c: Seq<(Seq<char>, Seq<char>)>, k: Seq<char>, f: Option<Seq<char>>)
    requires
        is_peer_key(k),
        c == crate::codec::opt_entry(k, f),
    ensures
        f.is_some() ==> peer_fold(x, c) == peer_set(x, k, f.unwrap())->Ok_0,
        f.is_none() ==> peer_fold(x, c) == x,
{
    match f {
        Some(v) => {
            lemma_fold_single_peer(x, k, v);
        },
        None => {
            assert(c =~= Seq::<(Seq<char>, Seq<char>)>::empty());
        },
    }
}

/// Folding one interface chunk.
proof fn lemma_iface_chunk(
    x: IfaceView,
    c: Seq<(Seq<char>, Seq<char>)>,
    k: Seq<char>,
    f: Option<Seq<char>>,
)
    requires
        c == crate::codec::opt_entry(k, f),
        f.is_some() ==> iface_entry_accepted(k, f.unwrap()),
    ensures
        f.is_some() ==> iface_fold(x, c) == iface_set(x, k, f.unwrap())->Ok_0,
        f.is_none() ==> iface_fold(x, c) == x,
{
    match f {
        Some(v) => {
            lemma_fold_single_iface(x, k, v);
        },
        None => {
            assert(c =~= Seq::<(Seq<char>, Seq<char>)>::empty());
        },
    }
}

/// How an interface reads back from its own serialization: the public
/// key is never written, and the bind-interface comment is absent for
/// the configurations the round trip covers.
pub open spec fn reparsed_iface(ifc: IfaceView) -> IfaceView {
    IfaceView { public_key: None, binding_iface: None, has_script_bind_iface: false, ..ifc }
}

/// The entries every interface entry must satisfy for the fold.
pub open spec fn iface_entries_accepted(ifc: IfaceView) -> bool {
    forall|j: int|
        0 <= j < iface_entries(ifc).len() ==> iface_entry_accepted(
            (#[trigger] iface_entries(ifc)[j]).0,
            iface_entries(ifc)[j].1,
        )
}

/// Replaying the interface's serialized entries on the empty interface
/// yields the reparsed interface.
#[verifier::rlimit(100)]
#[verifier::spinoff_prover]
proof fn lemma_iface_fold_id(ifc: IfaceView)
    requires
        !(ifc.has_script_bind_iface && ifc.binding_iface.is_some()),
        ifc.address.is_some() ==> ip_valid(Some(ifc.address.unwrap())),
    ensures
        iface_fold(empty_iface_view(), iface_entries(ifc)) == reparsed_iface(ifc),
{
    crate::laws::lemma_iface_keys_distinct();
    let a = iface_entries_a(ifc);
    let b = iface_entries_b(ifc);
    assert forall|j: int| 0 <= j < a.len() implies iface_entry_accepted(
        (#[trigger] a[j]).0,
        a[j].1,
    ) by {
        crate::laws::law_iface_lines_only_for_present_fields(ifc, j);
        assert(iface_entries(ifc)[j] == a[j]);
    }
    lemma_iface_fold_concat(empty_iface_view(), a, b);
    let mid = iface_fold(empty_iface_view(), a);
    lemma_iface_fold_a(ifc);
    lemma_iface_fold_b(ifc, mid);
}

/// Folding the first half of the interface entries.
#[verifier::rlimit(100)]
#[verifier::spinoff_prover]
proof fn lemma_iface_fold_a(ifc: IfaceView)
    requires
        !(ifc.has_script_bind_iface && ifc.binding_iface.is_some()),
        ifc.address.is_some() ==> ip_valid(Some(ifc.address.unwrap())),
    ensures
        iface_fold(empty_iface_view(), iface_entries_a(ifc)) == (IfaceView {
            name: ifc.name,
            routing_script_name: ifc.routing_script_name,
            address: ifc.address,
            listen_port: ifc.listen_port,
            private_key: ifc.private_key,
            dns: ifc.dns,
            ..empty_iface_view()
        }),
{
    crate::laws::lemma_iface_keys_distinct();
    let c1 = crate::codec::opt_entry("# Name"@, ifc.name);
    let c2: Seq<(Seq<char>, Seq<char>)> = if ifc.has_script_bind_iface {
        crate::codec::opt_entry("# BindIface"@, ifc.binding_iface)
    } else {
        Seq::empty()
    };
    let c3 = crate::codec::opt_entry("# RoutingScriptName"@, ifc.routing_script_name);
    let c4 = crate::codec::opt_entry("Address"@, ifc.address);
    let c5 = crate::codec::opt_entry("ListenPort"@, ifc.listen_port);
    let c6 = crate::codec::opt_entry("PrivateKey"@, ifc.private_key);
    let c7 = crate::codec::opt_entry("DNS"@, ifc.dns);
    assert(c2 =~= Seq::<(Seq<char>, Seq<char>)>::empty());
    assert(iface_entries_a(ifc) =~= c1 + (c3 + (c4 + (c5 + (c6 + c7)))));
    let x0 = empty_iface_view();
    lemma_iface_chunk(x0, c1, "# Name"@, ifc.name);
    let x1 = iface_fold(x0, c1);
    lemma_iface_fold_concat(x0, c1, c3 + (c4 + (c5 + (c6 + c7))));
    lemma_iface_chunk(x1, c3, "# RoutingScriptName"@, ifc.routing_script_name);
    let x2 = iface_fold(x1, c3);
    lemma_iface_fold_concat(x1, c3, c4 + (c5 + (c6 + c7)));
    lemma_iface_chunk(x2, c4, "Address"@, ifc.address);
    let x3 = iface_fold(x2, c4);
    lemma_iface_fold_concat(x2, c4, c5 + (c6 + c7));
    lemma_iface_chunk(x3, c5, "ListenPort"@, ifc.listen_port);
    let x4 = iface_fold(x3, c5);
    lemma_iface_fold_concat(x3, c5, c6 + c7);
    lemma_iface_chunk(x4, c6, "PrivateKey"@, ifc.private_key);
    let x5 = iface_fold(x4, c6);
    lemma_iface_fold_concat(x4, c6, c7);
    lemma_iface_chunk(x5, c7, "DNS"@, ifc.dns);
}

/// Folding the second half of the interface entries.
#[verifier::rlimit(100)]
#[verifier::spinoff_prover]
proof fn lemma_iface_fold_b(ifc: IfaceView, start: IfaceView)
    requires
        start == (IfaceView {
            name: ifc.name,
            routing_script_name: ifc.routing_script_name,
            address: ifc.address,
            listen_port: ifc.listen_port,
            private_key: ifc.private_key,
            dns: ifc.dns,
            ..empty_iface_view()
        }),
    ensures
        iface_fold(start, iface_entries_b(ifc)) == reparsed_iface(ifc),
{
    crate::laws::lemma_iface_keys_distinct();
    let c1 = crate::codec::opt_entry("Table"@, ifc.table);
    let c2 = crate::codec::opt_entry("MTU"@, ifc.mtu);
    let c3 = crate::codec::opt_entry("PreUp"@, ifc.pre_up);
    let c4 = crate::codec::opt_entry("PostUp"@, ifc.post_up);
    let c5 = crate::codec::opt_entry("PreDown"@, ifc.pre_down);
    let c6 = crate::codec::opt_entry("PostDown"@, ifc.post_down);
    let c7 = crate::codec::opt_entry("FwMark"@, ifc.fwmark);
    assert(iface_entries_b(ifc) =~= c1 + (c2 + (c3 + (c4 + (c5 + (c6 + c7))))));
    lemma_iface_chunk(start, c1, "Table"@, ifc.table);
    let x1 = iface_fold(start, c1);
    lemma_iface_fold_concat(start, c1, c2 + (c3 + (c4 + (c5 + (c6 + c7)))));
    lemma_iface_chunk(x1, c2, "MTU"@, ifc.mtu);
    let x2 = iface_fold(x1, c2);
    lemma_iface_fold_concat(x1, c2, c3 + (c4 + (c5 + (c6 + c7))));
    lemma_iface_chunk(x2, c3, "PreUp"@, ifc.pre_up);
    let x3 = iface_fold(x2, c3);
    lemma_iface_fold_concat(x2, c3, c4 + (c5 + (c6 + c7)));
    lemma_iface_chunk(x3, c4, "PostUp"@, ifc.post_up);
    let x4 = iface_fold(x3, c4);
    lemma_iface_fold_concat(x3, c4, c5 + (c6 + c7));
    lemma_iface_chunk(x4, c5, "PreDown"@, ifc.pre_down);
    let x5 = iface_fold(x4, c5);
    lemma_iface_fold_concat(x4, c5, c6 + c7);
    lemma_iface_chunk(x5, c6, "PostDown"@, ifc.post_down);
    let x6 = iface_fold(x5, c6);
    lemma_iface_fold_concat(x5, c6, c7);
    lemma_iface_chunk(x6, c7, "FwMark"@, ifc.fwmark);
}

// ---------------------------------------------------------------------
// Well-formed blocks
// ---------------------------------------------------------------------
/// An interface whose serialization the round trip covers: present
/// values survive the line format, the address is a valid network, and
/// no bind-interface comment is emitted.
pub open spec fn iface_safe(ifc: IfaceView) -> bool {
    opt_wf(ifc.name) && opt_wf(ifc.address) && opt_wf(ifc.listen_port) && opt_wf(ifc.private_key)
        && opt_wf(ifc.dns) && opt_wf(ifc.table) && opt_wf(ifc.mtu) && opt_wf(ifc.pre_up) && opt_wf(
        ifc.post_up,
    ) && opt_wf(ifc.pre_down) && opt_wf(ifc.post_down) && opt_wf(ifc.fwmark) && opt_wf(
        ifc.routing_script_name,
    ) && (match ifc.address {
        Some(a) => ip_valid(Some(a)),
        None => true,
    }) && !(ifc.has_script_bind_iface && ifc.binding_iface.is_some())
}

/// A configuration the round trip covers.
pub open spec fn roundtrip_safe(c: ConfigView) -> bool {
    iface_safe(c.interface) && (forall|j: int| 0 <= j < c.peers.len() ==> peer_wf(#[trigger] c.peers[j]))
}

/// Every interface entry of a safe interface is well-formed and
/// accepted by the parser.
proof fn lemma_iface_entry_wf(ifc: IfaceView, j: int)
    requires
        iface_safe(ifc),
        0 <= j < iface_entries(ifc).len(),
    ensures
        iface_entry_accepted((iface_entries(ifc)[j]).0, iface_entries(ifc)[j].1),
        key_wf((iface_entries(ifc)[j]).0),
        val_wf(iface_entries(ifc)[j].1),
{
    law_iface_lines_only_for_present_fields(ifc, j);
    let k = iface_entries(ifc)[j].0;
    let v = iface_entries(ifc)[j].1;
    assert(iface_entry_of(ifc, k) == Some(v));
    assert(is_iface_key(k)) by {
        if !is_iface_key(k) {
            assert(iface_entry_of(ifc, k) == None::<Seq<char>>);
        }
    }
    crate::laws::lemma_iface_keys_distinct();
    lemma_keys_wf();
}

/// Every peer entry of a well-formed peer is well-formed.
proof fn lemma_peer_entry_wf(p: PeerView, j: int)
    requires
        peer_wf(p),
        0 <= j < peer_entries(p).len(),
    ensures
        is_peer_key((peer_entries(p)[j]).0),
        key_wf((peer_entries(p)[j]).0),
        val_wf(peer_entries(p)[j].1),
{
    law_peer_lines_only_for_present_fields(p, j);
    let k = peer_entries(p)[j].0;
    let v = peer_entries(p)[j].1;
    assert(peer_entry_of(p, k) == Some(v));
    assert(is_peer_key(k)) by {
        if !is_peer_key(k) {
            assert(peer_entry_of(p, k) == None::<Seq<char>>);
        }
    }
    lemma_keys_wf();
}

/// No line of a safe interface block holds a newline.
proof fn lemma_iface_lines_no_nl(ifc: IfaceView)
    requires
        iface_safe(ifc),
    ensures
        forall|i: int| 0 <= i < iface_lines(ifc).len() ==> no_nl(#[trigger] iface_lines(ifc)[i]),
{
    lemma_classify_fixed();
    let m = iface_entries(ifc).len() as int;
    assert forall|i: int| 0 <= i < iface_lines(ifc).len() implies no_nl(
        #[trigger] iface_lines(ifc)[i],
    ) by {
        if i == 0 {
            assert(iface_lines(ifc)[0] == "[Interface]"@);
        } else if i < 1 + m {
            assert(iface_lines(ifc)[i] == kv_lines(iface_entries(ifc))[i - 1]);
            assert(kv_lines(iface_entries(ifc))[i - 1] == kv_line(
                iface_entries(ifc)[i - 1].0,
                iface_entries(ifc)[i - 1].1,
            ));
            lemma_iface_entry_wf(ifc, i - 1);
            lemma_classify_kv(iface_entries(ifc)[i - 1].0, iface_entries(ifc)[i - 1].1);
        } else {
            assert(iface_lines(ifc)[i] == Seq::<char>::empty());
        }
    }
}

/// No line of the peer blocks holds a newline.
proof fn lemma_peers_lines_no_nl(ps: Seq<PeerView>)
    requires
        forall|j: int| 0 <= j < ps.len() ==> peer_wf(#[trigger] ps[j]),
    ensures
        forall|i: int| 0 <= i < peers_lines(ps).len() ==> no_nl(#[trigger] peers_lines(ps)[i]),
    decreases ps.len(),
{
    if ps.len() > 0 {
        lemma_classify_fixed();
        let p0 = ps[0];
        let m = peer_entries(p0).len() as int;
        assert(forall|j: int| 0 <= j < ps.drop_first().len() ==> #[trigger] ps.drop_first()[j] == ps[j + 1]);
        lemma_peers_lines_no_nl(ps.drop_first());
        assert forall|i: int| 0 <= i < peers_lines(ps).len() implies no_nl(
            #[trigger] peers_lines(ps)[i],
        ) by {
            if i < peer_lines(p0).len() {
                assert(peers_lines(ps)[i] == peer_lines(p0)[i]);
                if i == 0 {
                    assert(peer_lines(p0)[0] == "[Peer]"@);
                } else if i < 1 + m {
                    assert(peer_lines(p0)[i] == kv_line(
                        peer_entries(p0)[i - 1].0,
                        peer_entries(p0)[i - 1].1,
                    ));
                    lemma_peer_entry_wf(p0, i - 1);
                    lemma_classify_kv(peer_entries(p0)[i - 1].0, peer_entries(p0)[i - 1].1);
                } else {
                    assert(peer_lines(p0)[i] == Seq::<char>::empty());
                }
            } else {
                assert(peers_lines(ps)[i] == peers_lines(ps.drop_first())[i - peer_lines(
                    p0,
                ).len()]);
            }
        }
    }
}

// ---------------------------------------------------------------------
// Walking the peer blocks
// ---------------------------------------------------------------------
/// Parsing from the start of the serialized peer blocks appends the
/// peers to the flushed peer list and ends the configuration.
proof fn lemma_parse_peers(lines: Seq<Seq<char>>, i: int, ps: Seq<PeerView>, st: PState)
    requires
        0 <= i <= lines.len(),
        lines.subrange(i, lines.len() as int) == peers_lines(ps) + seq![Seq::<char>::empty()],
        forall|j: int| 0 <= j < ps.len() ==> peer_wf(#[trigger] ps[j]),
        st.mode == PMode::InIface || st.mode == PMode::InPeer,
    ensures
        parse_lines(lines, i, st) == Result::<ConfigView, ParseErr>::Ok(
            ConfigView { interface: st.iface, peers: crate::codec::flushed(st) + ps },
        ),
    decreases ps.len(),
{
    lemma_classify_fixed();
    let suffix = lines.subrange(i, lines.len() as int);
    if ps.len() == 0 {
        assert(peers_lines(ps).len() == 0);
        assert(suffix =~= seq![Seq::<char>::empty()]);
        assert(lines.len() == i + 1);
        assert(lines[i] == suffix[0]);
        assert(lines[i] == Seq::<char>::empty());
        assert(classify_line(lines[i]) == LineKind::Blank);
        assert(parse_lines(lines, i, st) == parse_lines(lines, i + 1, st));
        assert(parse_lines(lines, i + 1, st) == Result::<ConfigView, ParseErr>::Ok(
            ConfigView { interface: st.iface, peers: crate::codec::flushed(st) },
        ));
        assert(crate::codec::flushed(st) + ps =~= crate::codec::flushed(st));
    } else {
        let p0 = ps[0];
        let entries = peer_entries(p0);
        let m = entries.len() as int;
        let block = peer_lines(p0);
        assert(block.len() == 2 + m);
        assert(peers_lines(ps) == block + peers_lines(ps.drop_first()));
        // the section header
        assert(suffix.len() == lines.len() - i);
        assert(suffix.len() >= 1);
        assert(suffix[0] == lines[i + 0]);
        assert(lines[i] == suffix[0]);
        assert(suffix[0] == block[0]);
        assert(block[0] == "[Peer]"@);
        assert(classify_line(lines[i]) == LineKind::Section("Peer"@));
        assert("Peer"@ != "Interface"@) by {
            reveal_strlit("Peer");
            reveal_strlit("Interface");
            assert("Peer"@.len() == 4);
            assert("Interface"@.len() == 9);
        }
        let st2 = PState {
            mode: PMode::InPeer,
            iface: st.iface,
            peers: crate::codec::flushed(st),
            cur: empty_peer_view(),
            seen_comment: false,
        };
        assert(parse_lines(lines, i, st) == parse_lines(lines, i + 1, st2));
        // the assignments
        assert forall|j: int| 0 <= j < m implies lines[i + 1 + j] == kv_line(
            (#[trigger] entries[j]).0,
            entries[j].1,
        ) by {
            assert(lines[i + 1 + j] == suffix[1 + j]);
            assert(suffix[1 + j] == block[1 + j]);
            assert(block[1 + j] == kv_lines(entries)[j]);
        }
        assert forall|j: int| 0 <= j < m implies is_peer_key((#[trigger] entries[j]).0) by {
            lemma_peer_entry_wf(p0, j);
        }
        assert forall|j: int| 0 <= j < m implies val_wf((#[trigger] entries[j]).1) by {
            lemma_peer_entry_wf(p0, j);
        }
        lemma_parse_peer_entries(lines, i + 1, entries, st2);
        lemma_peer_fold_id(p0);
        let st3 = PState { cur: p0, ..st2 };
        assert(parse_lines(lines, i + 1, st2) == parse_lines(lines, i + 1 + m, st3));
        // the closing blank line
        assert(lines[i + 1 + m] == suffix[1 + m]);
        assert(suffix[1 + m] == block[1 + m]);
        assert(block[1 + m] == Seq::<char>::empty());
        assert(classify_line(lines[i + 1 + m]) == LineKind::Blank);
        assert(parse_lines(lines, i + 1 + m, st3) == parse_lines(lines, i + 2 + m, st3));
        // the remaining blocks
        assert(forall|j: int| 0 <= j < ps.drop_first().len() ==> #[trigger] ps.drop_first()[j] == ps[j + 1]);
        assert(lines.subrange(i + 2 + m, lines.len() as int) =~= peers_lines(ps.drop_first())
            + seq![Seq::<char>::empty()]) by {
            assert forall|x: int|
                0 <= x < lines.len() - i - 2 - m implies lines.subrange(
                i + 2 + m,
                lines.len() as int,
            )[x] == (peers_lines(ps.drop_first()) + seq![Seq::<char>::empty()])[x] by {
                assert(lines.subrange(i + 2 + m, lines.len() as int)[x] == suffix[2 + m + x]);
                assert(suffix[2 + m + x] == (peers_lines(ps) + seq![Seq::<char>::empty()])[2 + m
                    + x]);
            }
        }
        lemma_parse_peers(lines, i + 2 + m, ps.drop_first(), st3);
        assert(crate::codec::flushed(st3) == crate::codec::flushed(st).push(p0));
        assert(crate::codec::flushed(st).push(p0) + ps.drop_first() =~= crate::codec::flushed(st)
            + ps);
    }
}

// ---------------------------------------------------------------------
// The round-trip law
// ---------------------------------------------------------------------
/// Law (round trip): serializing a configuration built only from the
/// explicit comment-key fields, parsing the text back and serializing
/// again reproduces the first text. The parsed configuration differs
/// from the original only in what the format never carries: the
/// derived public key, the binding interface and the bind flag.
pub proof fn law_serialize_parse_roundtrip(c: ConfigView)
    requires
        roundtrip_safe(c),
    ensures
        parse_spec(ser_spec(c)).is_ok(),
        parse_spec(ser_spec(c))->Ok_0 == (ConfigView {
            interface: reparsed_iface(c.interface),
            peers: c.peers,
        }),
        ser_spec(parse_spec(ser_spec(c))->Ok_0) == ser_spec(c),
{
    let ifc = c.interface;
    let all = ser_lines(c);
    lemma_iface_lines_no_nl(ifc);
    lemma_peers_lines_no_nl(c.peers);
    assert forall|i: int| 0 <= i < all.len() implies no_nl(#[trigger] all[i]) by {
        if i < iface_lines(ifc).len() {
            assert(all[i] == iface_lines(ifc)[i]);
        } else {
            assert(all[i] == peers_lines(c.peers)[i - iface_lines(ifc).len()]);
        }
    }
    lemma_split_unlines(all);
    let lines = all + seq![Seq::<char>::empty()];
    assert(parse_spec(ser_spec(c)) == parse_lines(lines, 0, init_pstate()));
    lemma_classify_fixed();
    // the interface header
    let m = iface_entries(ifc).len() as int;
    assert(lines[0] == iface_lines(ifc)[0]);
    assert(iface_lines(ifc)[0] == "[Interface]"@);
    assert(classify_line(lines[0]) == LineKind::Section("Interface"@));
    let st1 = PState {
        mode: PMode::InIface,
        iface: empty_iface_view(),
        peers: Seq::empty(),
        cur: empty_peer_view(),
        seen_comment: false,
    };
    assert(crate::codec::flushed(init_pstate()) == Seq::<PeerView>::empty());
    assert(parse_lines(lines, 0, init_pstate()) == parse_lines(lines, 1, st1));
    // the interface assignments
    assert forall|j: int| 0 <= j < m implies lines[1 + j] == kv_line(
        (#[trigger] iface_entries(ifc)[j]).0,
        iface_entries(ifc)[j].1,
    ) by {
        assert(lines[1 + j] == iface_lines(ifc)[1 + j]);
        assert(iface_lines(ifc)[1 + j] == kv_lines(iface_entries(ifc))[j]);
    }
    assert forall|j: int| 0 <= j < m implies iface_entry_accepted(
        (#[trigger] iface_entries(ifc)[j]).0,
        iface_entries(ifc)[j].1,
    ) by {
        lemma_iface_entry_wf(ifc, j);
    }
    assert forall|j: int| 0 <= j < m implies val_wf((#[trigger] iface_entries(ifc)[j]).1) by {
        lemma_iface_entry_wf(ifc, j);
    }
    lemma_parse_iface_entries(lines, 1, iface_entries(ifc), st1);
    lemma_iface_fold_id(ifc);
    let st2 = PState { iface: reparsed_iface(ifc), ..st1 };
    assert(parse_lines(lines, 1, st1) == parse_lines(lines, 1 + m, st2));
    // the blank line closing the interface block
    assert(lines[1 + m] == iface_lines(ifc)[1 + m]);
    assert(iface_lines(ifc)[1 + m] == Seq::<char>::empty());
    assert(classify_line(lines[1 + m]) == LineKind::Blank);
    assert(parse_lines(lines, 1 + m, st2) == parse_lines(lines, 2 + m, st2));
    // the peer blocks
    let i0 = 2 + m;
    assert(i0 == iface_lines(ifc).len());
    assert(lines.subrange(i0, lines.len() as int) =~= peers_lines(c.peers) + seq![
        Seq::<char>::empty(),
    ]) by {
        assert forall|x: int|
            0 <= x < lines.len() - i0 implies lines.subrange(i0, lines.len() as int)[x] == (
        peers_lines(c.peers) + seq![Seq::<char>::empty()])[x] by {
            if i0 + x < all.len() {
                assert(lines[i0 + x] == all[i0 + x]);
                assert(all[i0 + x] == peers_lines(c.peers)[x]);
            } else {
                assert(lines[i0 + x] == Seq::<char>::empty());
            }
        }
    }
    lemma_parse_peers(lines, i0, c.peers, st2);
    assert(crate::codec::flushed(st2) == Seq::<PeerView>::empty());
    assert(crate::codec::flushed(st2) + c.peers =~= c.peers);
    let parsed = ConfigView { interface: reparsed_iface(ifc), peers: c.peers };
    assert(parse_spec(ser_spec(c)) == Result::<ConfigView, ParseErr>::Ok(parsed));
    // serializing the parsed configuration reproduces the text
    assert(iface_entries(reparsed_iface(ifc)) =~= iface_entries(ifc)) by {
        assert(iface_entries_a(reparsed_iface(ifc)) =~= iface_entries_a(ifc));
        assert(iface_entries_b(reparsed_iface(ifc)) =~= iface_entries_b(ifc));
    }
    assert(ser_lines(parsed) == ser_lines(c));
    assert(ser_spec(parsed) == ser_spec(c));
}

} // verus!
