//! The tunnel activation state machine: classify the live state of a
//! named tunnel from the status tool's outcome and the OS link flags,
//! validate a configuration before activation, and plan the `up`/`down`
//! invocations a toggle must run.

use vstd::prelude::*;

use crate::config::{ConfigView, PeerView, WireguardConfig};
use crate::text;
use crate::text::trim;

verus! {

/// The live network state of a named tunnel, recomputed per query and
/// never cached.
#[derive(Clone, Copy, Debug, PartialEq, Eq, Structural)]
pub enum NetState {
    /// The OS link is up and running although the tunnel tool does not
    /// report the interface; never produced by the query itself.
    IplinkUp,
    /// The tunnel tool reports the interface but the OS link is not up
    /// and running.
    IplinkDown,
    /// The tunnel tool reports the interface and the link is up.
    WgQuickUp,
    /// The tunnel tool reports nothing for this name.
    WgQuickDown,
}

/// Whether the status tool's outcome reports the interface at all: a
/// zero exit code with non-empty output.
pub open spec fn show_reports_running(show_code: Option<i32>, show_output: Seq<char>) -> bool {
    show_code == Some(0i32) && show_output.len() > 0
}

/// Classify the tunnel's state from the status query and the OS link
/// flags: no report means the tunnel is down; a report with the link
/// not up and running means the link needs repair; otherwise the
/// tunnel is up.
pub fn is_wg_iface_running(show_code: Option<i32>, show_output: &str, link_up_and_running: bool)
    -> (r: NetState)
    ensures
        !show_reports_running(show_code, show_output@) ==> r == NetState::WgQuickDown,
        show_reports_running(show_code, show_output@) && !link_up_and_running ==> r
            == NetState::IplinkDown,
        show_reports_running(show_code, show_output@) && link_up_and_running ==> r
            == NetState::WgQuickUp,
{
    let code_ok = match show_code {
        Some(c) => c == 0i32,
        None => false,
    };
    if !code_ok || show_output.unicode_len() == 0 {
        NetState::WgQuickDown
    } else if !link_up_and_running {
        NetState::IplinkDown
    } else {
        NetState::WgQuickUp
    }
}

/// Why a configuration is not valid for activation, with the message
/// reported for it; checks run in a fixed order and the first failure
/// wins.
pub open spec fn cfg_invalid_reason(cfg: ConfigView) -> Option<Seq<char>> {
    if cfg.interface.public_key.is_none() {
        Some("Public key is not defined in interface section"@)
    } else if cfg.interface.listen_port.is_none() {
        Some("Listen port is not defined in interface section"@)
    } else if cfg.interface.address.is_none() {
        Some("IP address is not defined in interface section"@)
    } else if cfg.peers.len() == 0 {
        Some("No peers defined"@)
    } else if exists|j: int| 0 <= j < cfg.peers.len() && peer_pk_bad(#[trigger] cfg.peers[j]) {
        Some("Peer public key is empty"@)
    } else if cfg.interface.has_script_bind_iface && cfg.interface.binding_iface.is_none() {
        Some("Binding interface cannot be selected as 'None'"@)
    } else {
        None
    }
}

/// A peer public key that is absent or blank.
pub open spec fn peer_pk_bad(p: PeerView) -> bool {
    match p.public_key {
        None => true,
        Some(k) => trim(k).len() == 0,
    }
}

/// Whether a configuration is valid for activation: public key, listen
/// port and address present, at least one peer, every peer with a
/// non-blank public key, and a binding interface wherever the script
/// bind flag demands one.
#[verifier::loop_isolation(false)]
pub fn is_cfg_valid(cfg: &WireguardConfig) -> (r: Result<(), String>)
    ensures
        match cfg_invalid_reason(cfg@) {
            None => r.is_ok(),
            Some(m) => r.is_err() && r.unwrap_err()@ == m,
        },
{
    if cfg.interface.public_key.is_none() {
        return Err(String::from_str("Public key is not defined in interface section"));
    }
    if cfg.interface.listen_port.is_none() {
        return Err(String::from_str("Listen port is not defined in interface section"));
    }
    if cfg.interface.address.is_none() {
        return Err(String::from_str("IP address is not defined in interface section"));
    }
    let n = cfg.peers.len();
    if n == 0 {
        return Err(String::from_str("No peers defined"));
    }
    let mut j: usize = 0;
    while j < n
        invariant
            0 <= j <= n,
            n == cfg.peers@.len(),
            forall|k: int| 0 <= k < j ==> !peer_pk_bad(#[trigger] cfg@.peers[k]),
        decreases n - j,
    {
        let bad = match &cfg.peers[j].public_key {
            None => true,
            Some(k) => {
                let kc = text::str_to_chars(k.as_str());
                let t = text::trim_chars(&kc);
                t.len() == 0
            },
        };
        proof {
            assert(cfg@.peers[j as int] == cfg.peers@[j as int]@);
        }
        if bad {
            proof {
                assert(peer_pk_bad(cfg@.peers[j as int]));
            }
            return Err(String::from_str("Peer public key is empty"));
        }
        j = j + 1;
    }
    if cfg.interface.has_script_bind_iface && cfg.interface.binding_iface.is_none() {
        return Err(String::from_str("Binding interface cannot be selected as 'None'"));
    }
    Ok(())
}

/// The numeric value of a digit character.
pub open spec fn char_digit(c: char) -> int {
    c as int - '0' as int
}

/// A decimal digit.
pub open spec fn is_digit(c: char) -> bool {
    '0' <= c && c <= '9'
}

/// The value of a digit string.
pub open spec fn dec_val(d: Seq<char>) -> int
    decreases d.len(),
{
    if d.len() == 0 {
        0
    } else {
        dec_val(d.drop_last()) * 10 + char_digit(d[d.len() - 1])
    }
}

/// Index of the last occurrence of `c` in `s`, or `-1`.
pub open spec fn rfind_ch(s: Seq<char>, c: char) -> int
    decreases s.len(),
{
    if s.len() == 0 {
        -1
    } else if s[s.len() - 1] == c {
        s.len() - 1
    } else {
        rfind_ch(s.drop_last(), c)
    }
}

pub proof fn lemma_rfind_ch(s: Seq<char>, c: char)
    ensures
        rfind_ch(s, c) == -1 ==> (forall|j: int| 0 <= j < s.len() ==> s[j] != c),
        rfind_ch(s, c) >= 0 ==> 0 <= rfind_ch(s, c) < s.len() && s[rfind_ch(s, c)] == c && (forall|
            j: int,
        |
            rfind_ch(s, c) < j < s.len() ==> s[j] != c),
        rfind_ch(s, c) >= -1,
    decreases s.len(),
{
    if s.len() == 0 {
    } else if s[s.len() - 1] == c {
    } else {
        lemma_rfind_ch(s.drop_last(), c);
        let r = rfind_ch(s.drop_last(), c);
        if r < 0 {
            assert forall|j: int| 0 <= j < s.len() implies s[j] != c by {
                if j < s.len() - 1 {
                    assert(s[j] == s.drop_last()[j]);
                }
            }
        } else {
            assert(s[r] == s.drop_last()[r]);
            assert forall|j: int| r < j < s.len() implies s[j] != c by {
                if j < s.len() - 1 {
                    assert(s[j] == s.drop_last()[j]);
                }
            }
        }
    }
}

/// All characters of `d` are digits.
pub open spec fn all_digits(d: Seq<char>) -> bool {
    forall|j: int| 0 <= j < d.len() ==> is_digit(#[trigger] d[j])
}

/// A digit-string value never shrinks as digits are appended.
pub proof fn lemma_dec_val_prefix(d: Seq<char>, i: int)
    requires
        0 <= i <= d.len(),
        all_digits(d),
    ensures
        dec_val(d) >= dec_val(d.subrange(0, i)),
        dec_val(d.subrange(0, i)) >= 0,
    decreases d.len() - i,
{
    if i == d.len() {
        assert(d.subrange(0, i) =~= d);
        lemma_dec_val_nonneg(d);
    } else {
        lemma_dec_val_prefix(d, i + 1);
        let a = d.subrange(0, i);
        let b = d.subrange(0, i + 1);
        assert(b.drop_last() =~= a);
        assert(b[b.len() - 1] == d[i]);
        lemma_dec_val_nonneg(a);
        assert(dec_val(b) == dec_val(a) * 10 + char_digit(d[i]));
        assert(is_digit(d[i]));
        assert(char_digit(d[i]) >= 0);
        assert(dec_val(a) * 10 >= dec_val(a)) by (nonlinear_arith)
            requires
                dec_val(a) >= 0,
        ;
    }
}

/// A digit-string value is non-negative.
pub proof fn lemma_dec_val_nonneg(d: Seq<char>)
    requires
        all_digits(d),
    ensures
        dec_val(d) >= 0,
    decreases d.len(),
{
    if d.len() > 0 {
        assert(all_digits(d.drop_last())) by {
            assert(forall|j: int|
                0 <= j < d.len() - 1 ==> #[trigger] d.drop_last()[j] == d[j]);
        }
        lemma_dec_val_nonneg(d.drop_last());
        assert(is_digit(d[d.len() - 1]));
        assert(dec_val(d.drop_last()) * 10 >= 0) by (nonlinear_arith)
            requires
                dec_val(d.drop_last()) >= 0,
        ;
    }
}

/// What this library accepts as a `host:port` endpoint: a last colon
/// with a non-empty host before it and a decimal port of value at most
/// 65535 after it. The check is syntactic; no name resolution happens
/// here.
pub open spec fn endpoint_ok(s: Seq<char>) -> bool {
    let i = rfind_ch(s, ':');
    i >= 1 && port_ok(s.subrange(i + 1, s.len() as int))
}

/// A valid decimal port: non-empty, all digits, value at most 65535.
pub open spec fn port_ok(d: Seq<char>) -> bool {
    d.len() > 0 && all_digits(d) && dec_val(d) <= 65535
}

/// Whether `s` is a syntactically valid `host:port` endpoint.
#[verifier::loop_isolation(false)]
pub fn is_endpoint_valid(s: &str) -> (r: bool)
    ensures
        r == endpoint_ok(s@),
{
    let chars = text::str_to_chars(s);
    let n = chars.len();
    let mut i: usize = n;
    while i > 0
        invariant
            0 <= i <= n,
            n == chars@.len(),
            forall|j: int| i <= j < n ==> chars@[j] != ':',
        decreases i,
    {
        if chars[i - 1] == ':' {
            proof {
                lemma_rfind_ch(chars@, ':');
                if rfind_ch(chars@, ':') != i - 1 {
                    if rfind_ch(chars@, ':') < i - 1 {
                        assert(chars@[i - 1] != ':');
                    } else {
                        assert(chars@[rfind_ch(chars@, ':')] != ':');
                    }
                }
                assert(rfind_ch(chars@, ':') == i - 1);
            }
            if i - 1 < 1 {
                return false;
            }
            let mut acc: u32 = 0;
            let mut j: usize = i;
            let ghost port = chars@.subrange(i as int, n as int);
            if j == n {
                proof {
                    assert(port.len() == 0);
                }
                return false;
            }
            while j < n
                invariant
                    i <= j <= n,
                    port == chars@.subrange(i as int, n as int),
                    forall|k: int| 0 <= k < j - i ==> is_digit(#[trigger] port[k]),
                    acc == dec_val(port.subrange(0, j - i)),
                    acc <= 65535,
                decreases n - j,
            {
                let c = chars[j];
                if c < '0' || c > '9' {
                    proof {
                        assert(port[j - i] == chars@[j as int]);
                        assert(!is_digit(port[j - i]));
                    }
                    return false;
                }
                let d = (c as u32) - ('0' as u32);
                proof {
                    assert(port[j - i] == chars@[j as int]);
                    assert(is_digit(port[j - i]));
                    assert(port.subrange(0, j - i + 1).drop_last() =~= port.subrange(0, j - i));
                    assert(port.subrange(0, j - i + 1)[j - i] == port[j - i]);
                    assert(d == char_digit(port[j - i]));
                }
                let next: u64 = (acc as u64) * 10 + (d as u64);
                if next > 65535 {
                    proof {
                        assert(dec_val(port.subrange(0, j - i + 1)) == next);
                        assert(all_digits(port.subrange(0, j - i + 1)) ==> true);
                        if port_ok(port) {
                            assert(all_digits(port));
                            lemma_dec_val_prefix(port, j - i + 1);
                            assert(dec_val(port) >= dec_val(port.subrange(0, j - i + 1)));
                        }
                    }
                    return false;
                }
                acc = next as u32;
                j = j + 1;
            }
            proof {
                assert(port.subrange(0, n - i as int) =~= port);
                assert(all_digits(port));
                assert(port_ok(port));
            }
            return true;
        }
        i = i - 1;
    }
    proof {
        lemma_rfind_ch(chars@, ':');
        if rfind_ch(chars@, ':') >= 0 {
            assert(chars@[rfind_ch(chars@, ':')] != ':');
        }
    }
    false
}

/// Index of the first peer whose present endpoint is invalid, or `-1`.
pub open spec fn first_bad_endpoint(peers: Seq<PeerView>) -> int
    decreases peers.len(),
{
    if peers.len() == 0 {
        -1
    } else if peer_endpoint_bad(peers[0]) {
        0
    } else {
        let r = first_bad_endpoint(peers.drop_first());
        if r < 0 {
            -1
        } else {
            r + 1
        }
    }
}

/// A present endpoint that is not a valid `host:port`.
pub open spec fn peer_endpoint_bad(p: PeerView) -> bool {
    match p.endpoint {
        Some(e) => !endpoint_ok(e),
        None => false,
    }
}

pub proof fn lemma_first_bad_endpoint(peers: Seq<PeerView>)
    ensures
        first_bad_endpoint(peers) == -1 ==> (forall|j: int|
            0 <= j < peers.len() ==> !peer_endpoint_bad(#[trigger] peers[j])),
        first_bad_endpoint(peers) >= 0 ==> 0 <= first_bad_endpoint(peers) < peers.len()
            && peer_endpoint_bad(peers[first_bad_endpoint(peers)]) && (forall|j: int|
            0 <= j < first_bad_endpoint(peers) ==> !peer_endpoint_bad(#[trigger] peers[j])),
        first_bad_endpoint(peers) >= -1,
    decreases peers.len(),
{
    if peers.len() == 0 {
    } else if peer_endpoint_bad(peers[0]) {
    } else {
        lemma_first_bad_endpoint(peers.drop_first());
        let r = first_bad_endpoint(peers.drop_first());
        if r < 0 {
            assert forall|j: int| 0 <= j < peers.len() implies !peer_endpoint_bad(
                #[trigger] peers[j],
            ) by {
                if j >= 1 {
                    assert(peers[j] == peers.drop_first()[j - 1]);
                }
            }
        } else {
            assert(peers[r + 1] == peers.drop_first()[r]);
            assert forall|j: int| 0 <= j < r + 1 implies !peer_endpoint_bad(
                #[trigger] peers[j],
            ) by {
                if j >= 1 {
                    assert(peers[j] == peers.drop_first()[j - 1]);
                }
            }
        }
    }
}

/// Every present peer endpoint must be a valid `host:port` before the
/// tunnel may be brought up; the first offender is reported.
#[verifier::loop_isolation(false)]
pub fn validate_peer_endpoints(cfg: &WireguardConfig) -> (r: Result<(), String>)
    ensures
        first_bad_endpoint(cfg@.peers) == -1 ==> r.is_ok(),
        first_bad_endpoint(cfg@.peers) >= 0 ==> r.is_err() && r.unwrap_err()@
            == "Invalid peer endpoint: "@ + cfg@.peers[first_bad_endpoint(
            cfg@.peers,
        )].endpoint.unwrap(),
{
    let n = cfg.peers.len();
    let mut j: usize = 0;
    while j < n
        invariant
            0 <= j <= n,
            n == cfg.peers@.len(),
            forall|k: int| 0 <= k < j ==> !peer_endpoint_bad(#[trigger] cfg@.peers[k]),
        decreases n - j,
    {
        proof {
            assert(cfg@.peers[j as int] == cfg.peers@[j as int]@);
        }
        match &cfg.peers[j].endpoint {
            Some(e) => {
                if !is_endpoint_valid(e.as_str()) {
                    proof {
                        assert(peer_endpoint_bad(cfg@.peers[j as int]));
                        lemma_first_bad_endpoint(cfg@.peers);
                        assert(first_bad_endpoint(cfg@.peers) == j as int);
                    }
                    let mut msg = text::str_to_chars("Invalid peer endpoint: ");
                    let ec = text::str_to_chars(e.as_str());
                    text::extend_chars(&mut msg, &ec);
                    return Err(text::string_from_chars(&msg));
                }
            },
            None => {},
        }
        j = j + 1;
    }
    proof {
        lemma_first_bad_endpoint(cfg@.peers);
        if first_bad_endpoint(cfg@.peers) >= 0 {
            assert(!peer_endpoint_bad(cfg@.peers[first_bad_endpoint(cfg@.peers)]));
        }
    }
    Ok(())
}

/// One step a toggle must run against the activation tool.
#[derive(Clone, Copy, Debug, PartialEq, Eq, Structural)]
pub enum ToggleAction {
    /// `up <config-path>`.
    Up,
    /// `down <config-path>`.
    Down,
}

/// The invocations a toggle runs for the current state: a repair cycle
/// for a dangling link, a plain deactivation when up, a plain
/// activation when down; the "link up without tunnel" classification
/// is never produced by the query and is rejected.
pub fn toggle_plan(state: &NetState) -> (r: Result<Vec<ToggleAction>, String>)
    ensures
        *state == NetState::IplinkDown ==> r.is_ok() && r.unwrap()@ == seq![
            ToggleAction::Down,
            ToggleAction::Up,
        ],
        *state == NetState::WgQuickUp ==> r.is_ok() && r.unwrap()@ == seq![ToggleAction::Down],
        *state == NetState::WgQuickDown ==> r.is_ok() && r.unwrap()@ == seq![ToggleAction::Up],
        *state == NetState::IplinkUp ==> r.is_err() && r.unwrap_err()@
            == "Unknown interface state"@,
{
    match state {
        NetState::IplinkDown => {
            let mut v: Vec<ToggleAction> = Vec::new();
            v.push(ToggleAction::Down);
            v.push(ToggleAction::Up);
            proof {
                assert(v@ =~= seq![ToggleAction::Down, ToggleAction::Up]);
            }
            Ok(v)
        },
        NetState::WgQuickUp => {
            let mut v: Vec<ToggleAction> = Vec::new();
            v.push(ToggleAction::Down);
            proof {
                assert(v@ =~= seq![ToggleAction::Down]);
            }
            Ok(v)
        },
        NetState::WgQuickDown => {
            let mut v: Vec<ToggleAction> = Vec::new();
            v.push(ToggleAction::Up);
            proof {
                assert(v@ =~= seq![ToggleAction::Up]);
            }
            Ok(v)
        },
        NetState::IplinkUp => Err(String::from_str("Unknown interface state")),
    }
}

} // verus!
