//! The routing-script directive parser: a script is line-oriented text
//! whose directive lines read `Keyword = cmd1; cmd2; ...`; commands of
//! the up/down directives must invoke the routing tools, and a command
//! may reference the binding-interface placeholder.

use vstd::prelude::*;

use crate::config::{HooksView, RoutingHooks};
use crate::text;
use crate::text::{contains_sub, find_ch, join_sep, split_on, trim};

verus! {

/// The placeholder a script command uses for the chosen binding
/// interface.
pub open spec fn bind_placeholder() -> Seq<char> {
    "%bindIface"@
}

/// The directive keywords a routing script may define.
#[derive(Clone, Copy, Debug, PartialEq, Eq, Structural)]
pub enum RoutingKeyword {
    PreUp,
    PostUp,
    PreDown,
    PostDown,
    FwMark,
}

/// The keyword a directive name denotes, if any; matching is
/// case-sensitive.
pub open spec fn keyword_of(k: Seq<char>) -> Option<RoutingKeyword> {
    if k == "PreUp"@ {
        Some(RoutingKeyword::PreUp)
    } else if k == "PostUp"@ {
        Some(RoutingKeyword::PostUp)
    } else if k == "PreDown"@ {
        Some(RoutingKeyword::PreDown)
    } else if k == "PostDown"@ {
        Some(RoutingKeyword::PostDown)
    } else if k == "FwMark"@ {
        Some(RoutingKeyword::FwMark)
    } else {
        None
    }
}

/// The printed name of a keyword.
pub open spec fn keyword_name(kw: RoutingKeyword) -> Seq<char> {
    match kw {
        RoutingKeyword::PreUp => "PreUp"@,
        RoutingKeyword::PostUp => "PostUp"@,
        RoutingKeyword::PreDown => "PreDown"@,
        RoutingKeyword::PostDown => "PostDown"@,
        RoutingKeyword::FwMark => "FwMark"@,
    }
}

/// The trimmed, non-empty commands of a directive value, in order.
pub open spec fn nonempty_parts(pieces: Seq<Seq<char>>) -> Seq<Seq<char>>
    decreases pieces.len(),
{
    if pieces.len() == 0 {
        Seq::empty()
    } else {
        let t = trim(pieces[0]);
        let rest = nonempty_parts(pieces.drop_first());
        if t.len() > 0 {
            seq![t] + rest
        } else {
            rest
        }
    }
}

/// The command list of a directive value: split on `;`, trimmed,
/// empties dropped.
pub open spec fn cmd_parts(raw: Seq<char>) -> Seq<Seq<char>> {
    nonempty_parts(split_on(raw, ';'))
}

/// Whether a command invokes one of the permitted routing tools.
pub open spec fn cmd_allowed(cmd: Seq<char>) -> bool {
    "iptables"@.is_prefix_of(cmd) || "ip "@.is_prefix_of(cmd) || "ip6tables"@.is_prefix_of(cmd)
}

/// Index of the first command that is not permitted, or `-1`.
pub open spec fn first_bad_cmd(parts: Seq<Seq<char>>) -> int
    decreases parts.len(),
{
    if parts.len() == 0 {
        -1
    } else if !cmd_allowed(parts[0]) {
        0
    } else {
        let r = first_bad_cmd(parts.drop_first());
        if r < 0 {
            -1
        } else {
            r + 1
        }
    }
}

pub proof fn lemma_first_bad_cmd(parts: Seq<Seq<char>>)
    ensures
        first_bad_cmd(parts) == -1 ==> (forall|j: int|
            0 <= j < parts.len() ==> cmd_allowed(#[trigger] parts[j])),
        first_bad_cmd(parts) >= 0 ==> 0 <= first_bad_cmd(parts) < parts.len() && !cmd_allowed(
            parts[first_bad_cmd(parts)],
        ) && (forall|j: int| 0 <= j < first_bad_cmd(parts) ==> cmd_allowed(#[trigger] parts[j])),
        first_bad_cmd(parts) >= -1,
    decreases parts.len(),
{
    if parts.len() == 0 {
    } else if !cmd_allowed(parts[0]) {
    } else {
        lemma_first_bad_cmd(parts.drop_first());
        let r = first_bad_cmd(parts.drop_first());
        if r < 0 {
            assert forall|j: int| 0 <= j < parts.len() implies cmd_allowed(#[trigger] parts[j]) by {
                if j >= 1 {
                    assert(parts[j] == parts.drop_first()[j - 1]);
                }
            }
        } else {
            assert(parts[r + 1] == parts.drop_first()[r]);
            assert forall|j: int| 0 <= j < r + 1 implies cmd_allowed(#[trigger] parts[j]) by {
                if j >= 1 {
                    assert(parts[j] == parts.drop_first()[j - 1]);
                }
            }
        }
    }
}

/// Whether any command references the binding-interface placeholder.
pub open spec fn any_bind_ref(parts: Seq<Seq<char>>) -> bool {
    exists|j: int| 0 <= j < parts.len() && contains_sub(#[trigger] parts[j], bind_placeholder())
}

/// What parsing a script can report, before the message is rendered.
pub enum ScriptErr {
    /// A non-comment line without `=`; carries the trimmed line.
    MissingEq { line: Seq<char> },
    /// A directive name outside the keyword set; carries the name.
    UnknownKeyword { key: Seq<char> },
    /// A directive whose command list is empty.
    EmptyCommands { kw: RoutingKeyword },
    /// A command of an up/down directive that is not permitted.
    BadCommand { kw: RoutingKeyword, cmd: Seq<char> },
    /// No up/down directive at all.
    NoKeywords,
}

/// The empty hook set.
pub open spec fn empty_hooks_view() -> HooksView {
    HooksView {
        pre_up: None,
        post_up: None,
        pre_down: None,
        post_down: None,
        fwmark: None,
        has_bind_interface: false,
    }
}

/// The hooks after one directive line assigns `kw`.
pub open spec fn assign_kw(h: HooksView, kw: RoutingKeyword, joined: Seq<char>, bind: bool) -> HooksView {
    match kw {
        RoutingKeyword::PreUp => HooksView {
            pre_up: Some(joined),
            has_bind_interface: h.has_bind_interface || bind,
            ..h
        },
        RoutingKeyword::PostUp => HooksView {
            post_up: Some(joined),
            has_bind_interface: h.has_bind_interface || bind,
            ..h
        },
        RoutingKeyword::PreDown => HooksView {
            pre_down: Some(joined),
            has_bind_interface: h.has_bind_interface || bind,
            ..h
        },
        RoutingKeyword::PostDown => HooksView {
            post_down: Some(joined),
            has_bind_interface: h.has_bind_interface || bind,
            ..h
        },
        RoutingKeyword::FwMark => HooksView { fwmark: Some(joined), ..h },
    }
}

/// One scan over the lines of a script, accumulating the hook set; the
/// final no-keyword check is applied by `script_spec`.
pub open spec fn scan_lines(lines: Seq<Seq<char>>, i: int, h: HooksView) -> Result<
    HooksView,
    ScriptErr,
>
    decreases lines.len() - i,
{
    if i < 0 || i >= lines.len() {
        Ok(h)
    } else {
        let l = trim(lines[i]);
        if l.len() == 0 || l[0] == '#' {
            scan_lines(lines, i + 1, h)
        } else {
            let e = find_ch(l, '=');
            if e < 0 {
                Err(ScriptErr::MissingEq { line: l })
            } else {
                let key = trim(l.subrange(0, e));
                let raw = l.subrange(e + 1, l.len() as int);
                match keyword_of(key) {
                    None => Err(ScriptErr::UnknownKeyword { key }),
                    Some(kw) => {
                        let parts = cmd_parts(raw);
                        if parts.len() == 0 {
                            Err(ScriptErr::EmptyCommands { kw })
                        } else if kw != RoutingKeyword::FwMark && first_bad_cmd(parts) >= 0 {
                            Err(ScriptErr::BadCommand { kw, cmd: parts[first_bad_cmd(parts)] })
                        } else {
                            let joined = join_sep(parts, "; "@);
                            let bind = kw != RoutingKeyword::FwMark && any_bind_ref(parts);
                            scan_lines(lines, i + 1, assign_kw(h, kw, joined, bind))
                        }
                    },
                }
            }
        }
    }
}

/// What parsing a whole script yields: its hook set, or the first
/// error; a script without any up/down directive is rejected.
pub open spec fn script_spec(content: Seq<char>) -> Result<HooksView, ScriptErr> {
    match scan_lines(split_on(content, '\n'), 0, empty_hooks_view()) {
        Err(e) => Err(e),
        Ok(h) => {
            if h.pre_up.is_none() && h.post_up.is_none() && h.pre_down.is_none()
                && h.post_down.is_none() {
                Err(ScriptErr::NoKeywords)
            } else {
                Ok(h)
            }
        },
    }
}

/// The message rendered for a script error, naming the script.
pub open spec fn script_err_text(e: ScriptErr, name: Seq<char>) -> Seq<char> {
    match e {
        ScriptErr::MissingEq { line } => "Invalid syntax in script '"@ + name
            + "': missing '=' in line '"@ + line + "'"@,
        ScriptErr::UnknownKeyword { key } => "Unknown routing keyword '"@ + key + "' in script '"@
            + name + "'"@,
        ScriptErr::EmptyCommands { kw } => "Empty command list for "@ + keyword_name(kw)
            + " in script '"@ + name + "'"@,
        ScriptErr::BadCommand { kw, cmd } => "Invalid command '"@ + cmd + "' for "@ + keyword_name(
            kw,
        ) + " in script '"@ + name + "'. Only iptables/ip/ip6tables allowed."@,
        ScriptErr::NoKeywords => "Script '"@ + name
            + "' does not contain any routing keywords (PreUp, PostUp, PreDown, PostDown)"@,
    }
}

impl Default for RoutingHooks {
    /// The empty hook set.
    fn default() -> (r: Self)
        ensures
            r@ == empty_hooks_view(),
    {
        RoutingHooks {
            pre_up: None,
            post_up: None,
            pre_down: None,
            post_down: None,
            fwmark: None,
            has_bind_interface: false,
        }
    }
}

/// The printed name of a keyword, as executable text.
fn keyword_name_exec(kw: RoutingKeyword) -> (r: &'static str)
    ensures
        r@ == keyword_name(kw),
{
    match kw {
        RoutingKeyword::PreUp => "PreUp",
        RoutingKeyword::PostUp => "PostUp",
        RoutingKeyword::PreDown => "PreDown",
        RoutingKeyword::PostDown => "PostDown",
        RoutingKeyword::FwMark => "FwMark",
    }
}

/// The trimmed non-empty commands of a directive value.
fn split_cmds(raw: &Vec<char>) -> (parts: Vec<Vec<char>>)
    ensures
        text::seq_views(parts@) == cmd_parts(raw@),
{
    let pieces = text::split_chars(raw, ';');
    let n = pieces.len();
    let mut parts: Vec<Vec<char>> = Vec::new();
    proof {
        assert(text::seq_views(pieces@).subrange(0, n as int) =~= text::seq_views(pieces@));
    }
    let mut i: usize = 0;
    while i < n
        invariant
            0 <= i <= n,
            n == pieces@.len(),
            text::seq_views(pieces@) == split_on(raw@, ';'),
            nonempty_parts(text::seq_views(pieces@)) == text::seq_views(parts@) + nonempty_parts(
                text::seq_views(pieces@).subrange(i as int, n as int),
            ),
        decreases n - i,
    {
        let t = text::trim_chars(&pieces[i]);
        proof {
            let ps = text::seq_views(pieces@);
            let rest = ps.subrange(i as int, n as int);
            assert(rest[0] == ps[i as int]);
            assert(rest.drop_first() =~= ps.subrange(i as int + 1, n as int));
            assert(ps[i as int] == pieces@[i as int]@);
        }
        if t.len() > 0 {
            proof {
                let ps = text::seq_views(pieces@);
                assert(text::seq_views(parts@.push(t)) =~= text::seq_views(parts@) + seq![t@]);
                assert(text::seq_views(parts@) + (seq![t@] + nonempty_parts(
                    ps.subrange(i as int + 1, n as int),
                )) =~= (text::seq_views(parts@) + seq![t@]) + nonempty_parts(
                    ps.subrange(i as int + 1, n as int),
                ));
            }
            parts.push(t);
        }
        i = i + 1;
    }
    proof {
        let ps = text::seq_views(pieces@);
        assert(ps.subrange(n as int, n as int) =~= Seq::<Seq<char>>::empty());
        assert(text::seq_views(parts@) + nonempty_parts(ps.subrange(n as int, n as int))
            =~= text::seq_views(parts@));
    }
    parts
}

/// Parse the directive lines of a routing script. On success the hook
/// set is returned; on failure, a message naming the script and, where
/// one is involved, the directive keyword and offending command.
#[verifier::loop_isolation(false)]
pub fn parse_routing_keywords(content: &str, script_name: &str) -> (r: Result<RoutingHooks, String>)
    ensures
        match script_spec(content@) {
            Ok(h) => r.is_ok() && r.unwrap()@ == h,
            Err(e) => r.is_err() && r.unwrap_err()@ == script_err_text(e, script_name@),
        },
{
    let chars = text::str_to_chars(content);
    let lines = text::split_chars(&chars, '\n');
    let n = lines.len();
    let ghost lv = text::seq_views(lines@);
    let mut hooks = RoutingHooks::default();
    let mut i: usize = 0;
    while i < n
        invariant
            0 <= i <= n,
            n == lines@.len(),
            lv == text::seq_views(lines@),
            lv == split_on(chars@, '\n'),
            chars@ == content@,
            scan_lines(lv, 0, empty_hooks_view()) == scan_lines(lv, i as int, hooks@),
        decreases n - i,
    {
        let t = text::trim_chars(&lines[i]);
        proof {
            assert(lv[i as int] == lines@[i as int]@);
        }
        if t.len() == 0 || t[0] == '#' {
            i = i + 1;
            continue;
        }
        match text::find_ch_vec(&t, '=') {
            None => {
                let mut msg = text::str_to_chars("Invalid syntax in script '");
                text::extend_str(&mut msg, script_name);
                text::extend_str(&mut msg, "': missing '=' in line '");
                text::extend_chars(&mut msg, &t);
                text::extend_str(&mut msg, "'");
                proof {
                    assert(scan_lines(lv, i as int, hooks@) == Result::<
                        HooksView,
                        ScriptErr,
                    >::Err(ScriptErr::MissingEq { line: t@ }));
                }
                return Err(text::string_from_chars(&msg));
            },
            Some(e) => {
                let left = text::subvec(&t, 0, e);
                let key = text::trim_chars(&left);
                let raw = text::subvec(&t, e + 1, t.len());
                let kw_opt = if text::chars_eq_str(&key, "PreUp") {
                    Some(RoutingKeyword::PreUp)
                } else if text::chars_eq_str(&key, "PostUp") {
                    Some(RoutingKeyword::PostUp)
                } else if text::chars_eq_str(&key, "PreDown") {
                    Some(RoutingKeyword::PreDown)
                } else if text::chars_eq_str(&key, "PostDown") {
                    Some(RoutingKeyword::PostDown)
                } else if text::chars_eq_str(&key, "FwMark") {
                    Some(RoutingKeyword::FwMark)
                } else {
                    None
                };
                match kw_opt {
                    None => {
                        let mut msg = text::str_to_chars("Unknown routing keyword '");
                        text::extend_chars(&mut msg, &key);
                        text::extend_str(&mut msg, "' in script '");
                        text::extend_str(&mut msg, script_name);
                        text::extend_str(&mut msg, "'");
                        proof {
                            assert(keyword_of(key@) == None::<RoutingKeyword>);
                            assert(scan_lines(lv, i as int, hooks@) == Result::<
                                HooksView,
                                ScriptErr,
                            >::Err(ScriptErr::UnknownKeyword { key: key@ }));
                        }
                        return Err(text::string_from_chars(&msg));
                    },
                    Some(kw) => {
                        let parts = split_cmds(&raw);
                        let m = parts.len();
                        if m == 0 {
                            let mut msg = text::str_to_chars("Empty command list for ");
                            text::extend_str(&mut msg, keyword_name_exec(kw));
                            text::extend_str(&mut msg, " in script '");
                            text::extend_str(&mut msg, script_name);
                            text::extend_str(&mut msg, "'");
                            proof {
                                assert(cmd_parts(raw@).len() == 0);
                            }
                            return Err(text::string_from_chars(&msg));
                        }
                        let mut bind = false;
                        if kw != RoutingKeyword::FwMark {
                            let mut j: usize = 0;
                            while j < m
                                invariant
                                    0 <= j <= m,
                                    m == parts@.len(),
                                    kw != RoutingKeyword::FwMark,
                                    forall|k: int|
                                        0 <= k < j ==> cmd_allowed(
                                            #[trigger] text::seq_views(parts@)[k],
                                        ),
                                    bind == (exists|k: int|
                                        0 <= k < j && contains_sub(
                                            #[trigger] text::seq_views(parts@)[k],
                                            bind_placeholder(),
                                        )),
                                decreases m - j,
                            {
                                let cmd = &parts[j];
                                proof {
                                    assert(text::seq_views(parts@)[j as int] == parts@[j as int]@);
                                }
                                let allowed = text::starts_with_str(cmd, "iptables")
                                    || text::starts_with_str(cmd, "ip ") || text::starts_with_str(
                                    cmd,
                                    "ip6tables",
                                );
                                if !allowed {
                                    proof {
                                        lemma_first_bad_cmd(text::seq_views(parts@));
                                        assert(first_bad_cmd(text::seq_views(parts@)) == j as int);
                                    }
                                    let mut msg = text::str_to_chars("Invalid command '");
                                    text::extend_chars(&mut msg, cmd);
                                    text::extend_str(&mut msg, "' for ");
                                    text::extend_str(&mut msg, keyword_name_exec(kw));
                                    text::extend_str(&mut msg, " in script '");
                                    text::extend_str(&mut msg, script_name);
                                    text::extend_str(
                                        &mut msg,
                                        "'. Only iptables/ip/ip6tables allowed.",
                                    );
                                    return Err(text::string_from_chars(&msg));
                                }
                                if text::contains_str(cmd, "%bindIface") {
                                    bind = true;
                                }
                                j = j + 1;
                            }
                            proof {
                                lemma_first_bad_cmd(text::seq_views(parts@));
                                assert(first_bad_cmd(text::seq_views(parts@)) == -1);
                                assert(bind == any_bind_ref(text::seq_views(parts@)));
                            }
                        }
                        let joined_chars = text::join_chars(&parts, "; ");
                        let joined = text::string_from_chars(&joined_chars);
                        let ghost pre = hooks@;
                        match kw {
                            RoutingKeyword::PreUp => {
                                hooks.pre_up = Some(joined);
                                hooks.has_bind_interface = hooks.has_bind_interface || bind;
                            },
                            RoutingKeyword::PostUp => {
                                hooks.post_up = Some(joined);
                                hooks.has_bind_interface = hooks.has_bind_interface || bind;
                            },
                            RoutingKeyword::PreDown => {
                                hooks.pre_down = Some(joined);
                                hooks.has_bind_interface = hooks.has_bind_interface || bind;
                            },
                            RoutingKeyword::PostDown => {
                                hooks.post_down = Some(joined);
                                hooks.has_bind_interface = hooks.has_bind_interface || bind;
                            },
                            RoutingKeyword::FwMark => {
                                hooks.fwmark = Some(joined);
                            },
                        }
                        proof {
                            assert(hooks@ == assign_kw(
                                pre,
                                kw,
                                join_sep(cmd_parts(raw@), "; "@),
                                kw != RoutingKeyword::FwMark && any_bind_ref(cmd_parts(raw@)),
                            ));
                        }
                    },
                }
            },
        }
        i = i + 1;
    }
    if hooks.pre_up.is_none() && hooks.post_up.is_none() && hooks.pre_down.is_none()
        && hooks.post_down.is_none() {
        let mut msg = text::str_to_chars("Script '");
        text::extend_str(&mut msg, script_name);
        text::extend_str(
            &mut msg,
            "' does not contain any routing keywords (PreUp, PostUp, PreDown, PostDown)",
        );
        return Err(text::string_from_chars(&msg));
    }
    Ok(hooks)
}

} // verus!
