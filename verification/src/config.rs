//! The configuration data model: the local interface, its peers, and
//! the routing-script metadata attached to a configuration, together
//! with the small field-level helpers the rest of the library builds on.

use vstd::prelude::*;

use crate::text;

verus! {

/// VPN settings of the local node. All fields are optional text; the
/// public key is derived from the private key by an external tool and
/// is never serialized.
#[derive(Clone, Debug, PartialEq, Eq, PartialOrd, Ord)]
pub struct Interface {
    pub name: Option<String>,
    pub address: Option<String>,
    pub listen_port: Option<String>,
    pub private_key: Option<String>,
    pub public_key: Option<String>,
    pub dns: Option<String>,
    pub table: Option<String>,
    pub mtu: Option<String>,
    pub pre_up: Option<String>,
    pub post_up: Option<String>,
    pub pre_down: Option<String>,
    pub post_down: Option<String>,
    pub fwmark: Option<String>,
    pub binding_iface: Option<String>,
    pub routing_script_name: Option<String>,
    pub has_script_bind_iface: bool,
}

/// VPN settings of a remote peer.
#[derive(Clone, Debug, PartialEq, Eq, PartialOrd, Ord)]
pub struct Peer {
    pub name: Option<String>,
    pub allowed_ips: Option<String>,
    pub endpoint: Option<String>,
    pub public_key: Option<String>,
    pub persistent_keepalive: Option<String>,
}

/// One tunnel definition: the local interface and its ordered peers.
#[derive(Clone, Debug, PartialEq, Eq, PartialOrd, Ord)]
pub struct WireguardConfig {
    pub interface: Interface,
    pub peers: Vec<Peer>,
}

/// The five directive values a routing script can define, and whether
/// any of its commands references the binding-interface placeholder.
#[derive(Clone, Debug)]
pub struct RoutingHooks {
    pub pre_up: Option<String>,
    pub post_up: Option<String>,
    pub pre_down: Option<String>,
    pub post_down: Option<String>,
    pub fwmark: Option<String>,
    pub has_bind_interface: bool,
}

/// A routing-script template read from the scripts directory: its
/// location, its file name (the template's identity), its raw content
/// and the directives extracted from it.
#[derive(Clone, Debug)]
pub struct RoutingScripts {
    pub path: String,
    pub name: String,
    pub content: String,
    pub routing_hooks: RoutingHooks,
}

/// Mathematical image of `RoutingHooks`.
pub struct HooksView {
    pub pre_up: Option<Seq<char>>,
    pub post_up: Option<Seq<char>>,
    pub pre_down: Option<Seq<char>>,
    pub post_down: Option<Seq<char>>,
    pub fwmark: Option<Seq<char>>,
    pub has_bind_interface: bool,
}

/// Mathematical image of a `RoutingScripts` template.
pub struct ScriptView {
    pub path: Seq<char>,
    pub name: Seq<char>,
    pub content: Seq<char>,
    pub routing_hooks: HooksView,
}

/// Mathematical image of an optional text field.
pub open spec fn ov(o: Option<String>) -> Option<Seq<char>> {
    match o {
        Some(s) => Some(s@),
        None => None,
    }
}

/// Mathematical image of an `Interface`.
pub struct IfaceView {
    pub name: Option<Seq<char>>,
    pub address: Option<Seq<char>>,
    pub listen_port: Option<Seq<char>>,
    pub private_key: Option<Seq<char>>,
    pub public_key: Option<Seq<char>>,
    pub dns: Option<Seq<char>>,
    pub table: Option<Seq<char>>,
    pub mtu: Option<Seq<char>>,
    pub pre_up: Option<Seq<char>>,
    pub post_up: Option<Seq<char>>,
    pub pre_down: Option<Seq<char>>,
    pub post_down: Option<Seq<char>>,
    pub fwmark: Option<Seq<char>>,
    pub binding_iface: Option<Seq<char>>,
    pub routing_script_name: Option<Seq<char>>,
    pub has_script_bind_iface: bool,
}

/// Mathematical image of a `Peer`.
pub struct PeerView {
    pub name: Option<Seq<char>>,
    pub allowed_ips: Option<Seq<char>>,
    pub endpoint: Option<Seq<char>>,
    pub public_key: Option<Seq<char>>,
    pub persistent_keepalive: Option<Seq<char>>,
}

/// Mathematical image of a `WireguardConfig`.
pub struct ConfigView {
    pub interface: IfaceView,
    pub peers: Seq<PeerView>,
}

impl View for Interface {
    type V = IfaceView;

    open spec fn view(&self) -> IfaceView {
        IfaceView {
            name: ov(self.name),
            address: ov(self.address),
            listen_port: ov(self.listen_port),
            private_key: ov(self.private_key),
            public_key: ov(self.public_key),
            dns: ov(self.dns),
            table: ov(self.table),
            mtu: ov(self.mtu),
            pre_up: ov(self.pre_up),
            post_up: ov(self.post_up),
            pre_down: ov(self.pre_down),
            post_down: ov(self.post_down),
            fwmark: ov(self.fwmark),
            binding_iface: ov(self.binding_iface),
            routing_script_name: ov(self.routing_script_name),
            has_script_bind_iface: self.has_script_bind_iface,
        }
    }
}

impl View for Peer {
    type V = PeerView;

    open spec fn view(&self) -> PeerView {
        PeerView {
            name: ov(self.name),
            allowed_ips: ov(self.allowed_ips),
            endpoint: ov(self.endpoint),
            public_key: ov(self.public_key),
            persistent_keepalive: ov(self.persistent_keepalive),
        }
    }
}

impl View for RoutingHooks {
    type V = HooksView;

    open spec fn view(&self) -> HooksView {
        HooksView {
            pre_up: ov(self.pre_up),
            post_up: ov(self.post_up),
            pre_down: ov(self.pre_down),
            post_down: ov(self.post_down),
            fwmark: ov(self.fwmark),
            has_bind_interface: self.has_bind_interface,
        }
    }
}

impl View for RoutingScripts {
    type V = ScriptView;

    open spec fn view(&self) -> ScriptView {
        ScriptView {
            path: self.path@,
            name: self.name@,
            content: self.content@,
            routing_hooks: self.routing_hooks@,
        }
    }
}

/// The views of a sequence of peers.
pub open spec fn peer_views(s: Seq<Peer>) -> Seq<PeerView> {
    s.map_values(|p: Peer| p@)
}

impl View for WireguardConfig {
    type V = ConfigView;

    open spec fn view(&self) -> ConfigView {
        ConfigView { interface: self.interface@, peers: peer_views(self.peers@) }
    }
}

/// The empty interface: every field absent, the bind flag cleared.
pub open spec fn empty_iface_view() -> IfaceView {
    IfaceView {
        name: None,
        address: None,
        listen_port: None,
        private_key: None,
        public_key: None,
        dns: None,
        table: None,
        mtu: None,
        pre_up: None,
        post_up: None,
        pre_down: None,
        post_down: None,
        fwmark: None,
        binding_iface: None,
        routing_script_name: None,
        has_script_bind_iface: false,
    }
}

/// The empty peer: every field absent.
pub open spec fn empty_peer_view() -> PeerView {
    PeerView { name: None, allowed_ips: None, endpoint: None, public_key: None, persistent_keepalive: None }
}

impl Default for Interface {
    /// The empty interface.
    fn default() -> (r: Self)
        ensures
            r@ == empty_iface_view(),
    {
        Interface {
            name: None,
            address: None,
            listen_port: None,
            private_key: None,
            public_key: None,
            dns: None,
            table: None,
            mtu: None,
            pre_up: None,
            post_up: None,
            pre_down: None,
            post_down: None,
            fwmark: None,
            binding_iface: None,
            routing_script_name: None,
            has_script_bind_iface: false,
        }
    }
}

impl Default for Peer {
    /// The empty peer.
    fn default() -> (r: Self)
        ensures
            r@ == empty_peer_view(),
    {
        Peer { name: None, allowed_ips: None, endpoint: None, public_key: None, persistent_keepalive: None }
    }
}

impl Default for WireguardConfig {
    /// The empty configuration: an empty interface and no peers.
    fn default() -> (r: Self)
        ensures
            r@.interface == empty_iface_view(),
            r@.peers == Seq::<PeerView>::empty(),
    {
        let r = WireguardConfig { interface: Interface::default(), peers: Vec::new() };
        proof {
            assert(r@.peers =~= Seq::<PeerView>::empty());
        }
        r
    }
}

/// The text of an optional field, or `"unknown"` where it is absent.
pub fn get_value(f: &Option<String>) -> (r: &str)
    ensures
        f.is_some() ==> r@ == f.unwrap()@,
        f.is_none() ==> r@ == "unknown"@,
{
    match f {
        Some(v) => v.as_str(),
        None => "unknown",
    }
}

/// How a configuration looks after its routing and binding fields are
/// cleared: the identity, address and key fields survive, the five
/// hook fields, the binding interface, the script name and the bind
/// flag are reset.
pub open spec fn hooks_reset(before: IfaceView, after: IfaceView) -> bool {
    after == IfaceView {
        pre_up: None,
        post_up: None,
        pre_down: None,
        post_down: None,
        fwmark: None,
        binding_iface: None,
        routing_script_name: None,
        has_script_bind_iface: false,
        ..before
    }
}

/// Reset the routing and binding fields of a configuration to the safe
/// empty state, keeping everything else; the repair applied when a
/// loaded configuration fails reconciliation.
pub fn reset_interface_hooks(cfg: &mut WireguardConfig)
    ensures
        hooks_reset(old(cfg)@.interface, final(cfg)@.interface),
        final(cfg)@.peers == old(cfg)@.peers,
{
    cfg.interface.pre_up = None;
    cfg.interface.post_up = None;
    cfg.interface.pre_down = None;
    cfg.interface.post_down = None;
    cfg.interface.fwmark = None;
    cfg.interface.binding_iface = None;
    cfg.interface.routing_script_name = None;
    cfg.interface.has_script_bind_iface = false;
}

/// Whether `name` is one of the known interface names.
pub open spec fn known_iface(known: Seq<Seq<char>>, name: Seq<char>) -> bool {
    exists|i: int| 0 <= i < known.len() && known[i] == name
}

/// The views of a vector of strings.
pub open spec fn str_views(s: Seq<String>) -> Seq<Seq<char>> {
    s.map_values(|x: String| x@)
}

/// A configured binding interface must be one of the interfaces the
/// host actually offers; a configuration without one passes.
pub fn validate_binding_iface(binding_ifaces: &Vec<String>, cfg: &WireguardConfig) -> (r: Result<
    (),
    String,
>)
    ensures
        r.is_ok() <==> (cfg@.interface.binding_iface.is_none() || known_iface(
            str_views(binding_ifaces@),
            cfg@.interface.binding_iface.unwrap(),
        )),
        r.is_err() ==> r.unwrap_err()@ == "Invalid binding interface: "@
            + cfg@.interface.binding_iface.unwrap(),
{
    match &cfg.interface.binding_iface {
        None => Ok(()),
        Some(iface) => {
            let n = binding_ifaces.len();
            let mut i: usize = 0;
            while i < n
                invariant
                    0 <= i <= n,
                    n == binding_ifaces@.len(),
                    cfg@.interface.binding_iface == Some(iface@),
                    forall|j: int| 0 <= j < i ==> str_views(binding_ifaces@)[j] != iface@,
                decreases n - i,
            {
                if binding_ifaces[i].eq(iface) {
                    proof {
                        assert(str_views(binding_ifaces@)[i as int] == iface@);
                        assert(known_iface(str_views(binding_ifaces@), iface@));
                        assert(cfg@.interface.binding_iface == Some(iface@));
                    }
                    return Ok(());
                }
                i = i + 1;
            }
            let mut msg = text::str_to_chars("Invalid binding interface: ");
            let ic = text::str_to_chars(iface.as_str());
            text::extend_chars(&mut msg, &ic);
            Err(text::string_from_chars(&msg))
        },
    }
}

} // verus!
