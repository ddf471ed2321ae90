//! Reconciliation of a loaded configuration against the routing-script
//! templates on disk: a configuration that names a script must carry
//! exactly that script's directives, up to substitution of the chosen
//! binding interface for the placeholder.

use vstd::prelude::*;

use crate::config::{ConfigView, IfaceView, RoutingScripts, ScriptView, WireguardConfig, ov};
use crate::scripts::bind_placeholder;
use crate::text;
use crate::text::replace_all;

verus! {

/// The views of a vector of script templates.
pub open spec fn script_views(s: Seq<RoutingScripts>) -> Seq<ScriptView> {
    s.map_values(|x: RoutingScripts| x@)
}

/// Index of the first template with the given name, or `-1`.
pub open spec fn find_script(scripts: Seq<ScriptView>, name: Seq<char>) -> int
    decreases scripts.len(),
{
    if scripts.len() == 0 {
        -1
    } else if scripts[0].name == name {
        0
    } else {
        let r = find_script(scripts.drop_first(), name);
        if r < 0 {
            -1
        } else {
            r + 1
        }
    }
}

pub proof fn lemma_find_script(scripts: Seq<ScriptView>, name: Seq<char>)
    ensures
        find_script(scripts, name) == -1 ==> (forall|j: int|
            0 <= j < scripts.len() ==> (#[trigger] scripts[j]).name != name),
        find_script(scripts, name) >= 0 ==> 0 <= find_script(scripts, name) < scripts.len()
            && scripts[find_script(scripts, name)].name == name && (forall|j: int|
            0 <= j < find_script(scripts, name) ==> (#[trigger] scripts[j]).name != name),
        find_script(scripts, name) >= -1,
    decreases scripts.len(),
{
    if scripts.len() == 0 {
    } else if scripts[0].name == name {
    } else {
        lemma_find_script(scripts.drop_first(), name);
        let r = find_script(scripts.drop_first(), name);
        if r < 0 {
            assert forall|j: int| 0 <= j < scripts.len() implies (#[trigger] scripts[j]).name
                != name by {
                if j >= 1 {
                    assert(scripts[j] == scripts.drop_first()[j - 1]);
                }
            }
        } else {
            assert(scripts[r + 1] == scripts.drop_first()[r]);
            assert forall|j: int| 0 <= j < r + 1 implies (#[trigger] scripts[j]).name != name by {
                if j >= 1 {
                    assert(scripts[j] == scripts.drop_first()[j - 1]);
                }
            }
        }
    }
}

/// A configuration hook value, normalized for comparison against its
/// template: where the template may reference the binding-interface
/// placeholder, the configured interface name is substituted back.
pub open spec fn normalize_hook(cv: Seq<char>, use_bind: bool, bind: Option<Seq<char>>) -> Seq<
    char,
> {
    if use_bind {
        match bind {
            Some(b) => replace_all(cv, b, bind_placeholder()),
            None => cv,
        }
    } else {
        cv
    }
}

/// The outcome of comparing one hook field with its template.
#[derive(Clone, Copy, Debug, PartialEq, Eq, Structural)]
pub enum FieldCheck {
    /// Both absent, or present and equal after normalization.
    Match,
    /// Present on both sides but different.
    TemplateMismatch,
    /// Present on one side only.
    NotIdentical,
}

/// Compare one hook field with its template.
pub open spec fn check_field_spec(
    cfg_val: Option<Seq<char>>,
    tpl: Option<Seq<char>>,
    use_bind: bool,
    bind: Option<Seq<char>>,
) -> FieldCheck {
    match (cfg_val, tpl) {
        (Some(cv), Some(t)) => {
            if normalize_hook(cv, use_bind, bind) == t {
                FieldCheck::Match
            } else {
                FieldCheck::TemplateMismatch
            }
        },
        (None, None) => FieldCheck::Match,
        _ => FieldCheck::NotIdentical,
    }
}

/// What reconciliation can report, before the message is rendered.
pub enum ReconcileErr {
    /// The named script is not among the templates.
    ScriptMissing { name: Seq<char> },
    /// A hook field does not equal its template after normalization.
    Mismatch { field: Seq<char> },
    /// A hook field is present on one side only.
    NotIdentical { field: Seq<char> },
}

/// The message rendered for a reconciliation error.
pub open spec fn reconcile_err_text(e: ReconcileErr) -> Seq<char> {
    match e {
        ReconcileErr::ScriptMissing { name } => "'"@ + name
            + "' is not available or valid.\nPlease select again from the menu."@,
        ReconcileErr::Mismatch { field } => field + " script does not match the expected template."@,
        ReconcileErr::NotIdentical { field } => field + " scripts are not identical"@,
    }
}

/// The error a failed field check reports.
pub open spec fn field_err(c: FieldCheck, field: Seq<char>) -> ReconcileErr
    recommends
        c != FieldCheck::Match,
{
    match c {
        FieldCheck::TemplateMismatch => ReconcileErr::Mismatch { field },
        _ => ReconcileErr::NotIdentical { field },
    }
}

/// What reconciling a configuration against the templates yields: the
/// configuration unchanged when it names no script; an error when the
/// named script is missing or any of the five hook fields disagrees,
/// checked in the order pre_up, post_up, pre_down, post_down, fwmark;
/// otherwise the configuration with the script's bind flag adopted.
pub open spec fn reconcile_spec(scripts: Seq<ScriptView>, cfg: ConfigView) -> Result<
    ConfigView,
    ReconcileErr,
> {
    match cfg.interface.routing_script_name {
        None => Ok(cfg),
        Some(wanted) => {
            let idx = find_script(scripts, wanted);
            if idx < 0 {
                Err(ReconcileErr::ScriptMissing { name: wanted })
            } else {
                let h = scripts[idx].routing_hooks;
                let bind = cfg.interface.binding_iface;
                if check_field_spec(cfg.interface.pre_up, h.pre_up, true, bind)
                    != FieldCheck::Match {
                    Err(field_err(check_field_spec(cfg.interface.pre_up, h.pre_up, true, bind), "pre_up"@))
                } else if check_field_spec(cfg.interface.post_up, h.post_up, true, bind)
                    != FieldCheck::Match {
                    Err(field_err(check_field_spec(cfg.interface.post_up, h.post_up, true, bind), "post_up"@))
                } else if check_field_spec(cfg.interface.pre_down, h.pre_down, true, bind)
                    != FieldCheck::Match {
                    Err(field_err(check_field_spec(cfg.interface.pre_down, h.pre_down, true, bind), "pre_down"@))
                } else if check_field_spec(cfg.interface.post_down, h.post_down, true, bind)
                    != FieldCheck::Match {
                    Err(field_err(check_field_spec(cfg.interface.post_down, h.post_down, true, bind), "post_down"@))
                } else if check_field_spec(cfg.interface.fwmark, h.fwmark, false, bind)
                    != FieldCheck::Match {
                    Err(field_err(check_field_spec(cfg.interface.fwmark, h.fwmark, false, bind), "fwmark"@))
                } else {
                    Ok(
                        ConfigView {
                            interface: IfaceView {
                                has_script_bind_iface: h.has_bind_interface,
                                ..cfg.interface
                            },
                            peers: cfg.peers,
                        },
                    )
                }
            }
        },
    }
}

/// Compare one configured hook with its template value.
fn check_field(
    cfg_val: &Option<String>,
    tpl: &Option<String>,
    use_bind: bool,
    bind: &Option<String>,
) -> (r: FieldCheck)
    ensures
        r == check_field_spec(ov(*cfg_val), ov(*tpl), use_bind, ov(*bind)),
{
    match (cfg_val, tpl) {
        (Some(cv), Some(t)) => {
            let cvc = text::str_to_chars(cv.as_str());
            let normalized = if use_bind {
                match bind {
                    Some(b) => {
                        let bc = text::str_to_chars(b.as_str());
                        let ph = text::str_to_chars("%bindIface");
                        text::replace_chars(&cvc, &bc, &ph)
                    },
                    None => cvc,
                }
            } else {
                cvc
            };
            let tc = text::str_to_chars(t.as_str());
            if text::chars_eq(&normalized, &tc) {
                FieldCheck::Match
            } else {
                FieldCheck::TemplateMismatch
            }
        },
        (None, None) => FieldCheck::Match,
        _ => FieldCheck::NotIdentical,
    }
}

/// Render the error for a failed field check.
fn field_error(c: FieldCheck, field: &str) -> (r: String)
    requires
        c != FieldCheck::Match,
    ensures
        r@ == reconcile_err_text(
            match c {
                FieldCheck::TemplateMismatch => ReconcileErr::Mismatch { field: field@ },
                _ => ReconcileErr::NotIdentical { field: field@ },
            },
        ),
{
    let mut msg = text::str_to_chars(field);
    match c {
        FieldCheck::TemplateMismatch => {
            text::extend_str(&mut msg, " script does not match the expected template.");
        },
        _ => {
            text::extend_str(&mut msg, " scripts are not identical");
        },
    }
    text::string_from_chars(&msg)
}

/// Check a configuration's embedded hooks against the script it names,
/// and adopt that script's bind flag on success. A configuration that
/// names no script passes unchanged; a missing template, or any hook
/// that was edited away from its template, is reported and the
/// configuration left untouched, so the caller can repair it.
#[verifier::loop_isolation(false)]
pub fn validate_assign_routing_script(scripts: &Vec<RoutingScripts>, cfg: &mut WireguardConfig)
    -> (r: Result<(), String>)
    ensures
        match reconcile_spec(script_views(scripts@), old(cfg)@) {
            Ok(cv) => r.is_ok() && final(cfg)@ == cv,
            Err(e) => r.is_err() && r.unwrap_err()@ == reconcile_err_text(e) && final(cfg)@ == old(
                cfg,
            )@,
        },
{
    let ghost sv = script_views(scripts@);
    let wanted = match &cfg.interface.routing_script_name {
        None => {
            return Ok(());
        },
        Some(n) => n.clone(),
    };
    let n = scripts.len();
    let mut i: usize = 0;
    while i < n
        invariant
            0 <= i <= n,
            *cfg == *old(cfg),
            forall|j: int| 0 <= j < i ==> (#[trigger] sv[j]).name != wanted@,
        decreases n - i,
    {
        if scripts[i].name.eq(&wanted) {
            proof {
                assert(sv[i as int] == scripts@[i as int]@);
                lemma_find_script(sv, wanted@);
                assert(find_script(sv, wanted@) == i as int);
            }
            let script = &scripts[i];
            let c1 = check_field(
                &cfg.interface.pre_up,
                &script.routing_hooks.pre_up,
                true,
                &cfg.interface.binding_iface,
            );
            if !matches!(c1, FieldCheck::Match) {
                return Err(field_error(c1, "pre_up"));
            }
            let c2 = check_field(
                &cfg.interface.post_up,
                &script.routing_hooks.post_up,
                true,
                &cfg.interface.binding_iface,
            );
            if !matches!(c2, FieldCheck::Match) {
                return Err(field_error(c2, "post_up"));
            }
            let c3 = check_field(
                &cfg.interface.pre_down,
                &script.routing_hooks.pre_down,
                true,
                &cfg.interface.binding_iface,
            );
            if !matches!(c3, FieldCheck::Match) {
                return Err(field_error(c3, "pre_down"));
            }
            let c4 = check_field(
                &cfg.interface.post_down,
                &script.routing_hooks.post_down,
                true,
                &cfg.interface.binding_iface,
            );
            if !matches!(c4, FieldCheck::Match) {
                return Err(field_error(c4, "post_down"));
            }
            let c5 = check_field(
                &cfg.interface.fwmark,
                &script.routing_hooks.fwmark,
                false,
                &cfg.interface.binding_iface,
            );
            if !matches!(c5, FieldCheck::Match) {
                return Err(field_error(c5, "fwmark"));
            }
            cfg.interface.has_script_bind_iface = script.routing_hooks.has_bind_interface;
            return Ok(());
        }
        proof {
            assert(sv[i as int] == scripts@[i as int]@);
        }
        i = i + 1;
    }
    proof {
        lemma_find_script(sv, wanted@);
        assert(find_script(sv, wanted@) == -1);
    }
    let mut msg = text::str_to_chars("'");
    let wc = text::str_to_chars(wanted.as_str());
    text::extend_chars(&mut msg, &wc);
    text::extend_str(&mut msg, "' is not available or valid.\nPlease select again from the menu.");
    Err(text::string_from_chars(&msg))
}

} // verus!
