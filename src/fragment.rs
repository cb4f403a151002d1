//! Shell fragments: `# :` directive lines, each decorating the next
//! substantive line, read by an explicit two-state machine.
use vstd::prelude::*;
use crate::config::GlobalConfig;
use crate::directive::{
    Directive, DirectiveV, after, directive_of, process_ext, replace_shell, shell_keys,
    shell_values,
};
use crate::flags::{FnFlag, FlagSet, script_flags, union_seq};
use crate::model::{
    ErrV, Fun, FunV, InitialPlugin, ScanningError, effective_alias, err_view, fun_views, insert_fun,
    insert_result, res_view,
};
use crate::pattern::opt_view;
use crate::scan::{cmd_fun, cmd_origin, fstring_result, pathbuf_to_string, process_cmd, process_fstring};
use crate::text::{
    all_ws, is_blank, replace, replace_all, starts_with, strip_prefix, subst, trim_start,
    trim_start_seq, views,
};

verus! {

/// Reading state over a fragment, as a view: the open directive waiting for
/// its declaration line, if any, and the function table so far.
pub struct FragV {
    pub pending: Option<DirectiveV>,
    pub fns: Seq<FunV>,
}

/// `s` with the group's self references replaced.
pub open spec fn shell_subst(s: Seq<char>, pg: &InitialPlugin) -> Seq<char> {
    subst(s, shell_keys(), shell_values(pg.name@, effective_alias(pg.name@, opt_view(pg.alias))))
}

/// The group reference a directive declares.
pub open spec fn pg_fun(n: Seq<char>, d: DirectiveV) -> FunV {
    FunV { name: n, bin: None, alias: None, desc: d.desc, cmd: None, flags: d.flags, binds: d.binds, fstring: None }
}

/// The function an alias definition declares.
pub open spec fn alias_fun(alias: Seq<char>, value: Seq<char>, d: DirectiveV, flags: Seq<FnFlag>, tpl: Seq<char>) -> FunV {
    FunV {
        name: replace_all(tpl, "{{ alias }}"@, alias),
        bin: None,
        alias: Some(alias),
        desc: d.desc,
        cmd: Some(value),
        flags,
        binds: d.binds,
        fstring: None,
    }
}

/// Back to idle with the table `fns`; an error stays an error.
pub open spec fn idle(fns: Result<Seq<FunV>, ErrV>) -> Result<FragV, ErrV> {
    match fns {
        Ok(f) => Ok(FragV { pending: None, fns: f }),
        Err(e) => Err(e),
    }
}

/// A directive line of the fragment `file`, `rest` being the text after the marker.
pub open spec fn directive_line(fns: Seq<FunV>, rest: Seq<char>, file: Seq<char>, cfg: &GlobalConfig) -> Result<FragV, ErrV> {
    let d = directive_of(Some(rest));
    let origin = cmd_origin(Some(file), Seq::empty(), cfg);
    if d.flags.contains(FnFlag::PG) {
        match d.name {
            Some(n) => idle(insert_result(fns, pg_fun(n, d), origin)),
            None => idle(Ok(fns)),
        }
    } else if d.cmd is Some {
        match d.name {
            Some(n) => idle(insert_result(fns, cmd_fun(n, d.alias, d.desc, d.cmd->0, d.flags, d.binds), origin)),
            None => idle(Ok(fns)),
        }
    } else {
        Ok(FragV { pending: Some(d), fns })
    }
}

/// The declaration line that an open directive `d` decorates: a command
/// invocation under the literal-command flag; an alias definition under the
/// alias-declaration flag, or where the directive sets `alias=` and the line
/// defines an alias; else a shell function definition.
pub open spec fn declaration_line(
    fns: Seq<FunV>,
    d: DirectiveV,
    line: Seq<char>,
    file: Seq<char>,
    pg: &InitialPlugin,
    file_flags: Seq<FnFlag>,
    cfg: &GlobalConfig,
) -> Result<FragV, ErrV> {
    let flags = union_seq(d.flags, file_flags);
    if flags.contains(FnFlag::CMD) {
        match cfg.cmd_regex.group(line, 1) {
            Some(cs) => {
                let cstring = shell_subst(cs, pg);
                let name = match d.name {
                    Some(n) => n,
                    None => match cfg.name_from_cmd_regex.group(cstring, 1) {
                        Some(x) => x,
                        None => cstring,
                    },
                };
                idle(insert_result(fns, cmd_fun(name, d.alias, d.desc, cstring, script_flags(flags), d.binds),
                    cmd_origin(Some(file), cstring, cfg)))
            },
            None => idle(Ok(fns)),
        }
    } else if flags.contains(FnFlag::AL) || (d.alias is Some && cfg.alias_regex.group(line, 1) is Some) {
        match cfg.alias_regex.group(line, 1) {
            Some(a) => {
                let raw = match cfg.alias_regex.group(line, 2) {
                    Some(v) => v,
                    None => a,
                };
                let f = alias_fun(shell_subst(a, pg), shell_subst(raw, pg), d, script_flags(flags), cfg.name_from_alias_template@);
                idle(insert_result(fns, f, line))
            },
            None => idle(Ok(fns)),
        }
    } else {
        match cfg.func_regex.group(line, 1) {
            Some(fs) => idle(fstring_result(fns, shell_subst(fs, pg), None, script_flags(flags), d.binds, cfg.fn_regex, true)),
            None => idle(Ok(fns)),
        }
    }
}

/// One line of the fragment `file`.
pub open spec fn line_step(
    st: FragV,
    line: Seq<char>,
    file: Seq<char>,
    pg: &InitialPlugin,
    file_flags: Seq<FnFlag>,
    cfg: &GlobalConfig,
) -> Result<FragV, ErrV> {
    let t = trim_start_seq(line);
    if starts_with(t, "# :"@) {
        directive_line(st.fns, after(t, "# :"@), file, cfg)
    } else {
        match st.pending {
            Some(d) => if starts_with(t, "#"@) || all_ws(line) {
                Ok(st)
            } else {
                declaration_line(st.fns, d, line, file, pg, file_flags, cfg)
            },
            None => Ok(st),
        }
    }
}

/// The lines of the fragment `file` read in order from an idle state and
/// table `fns`; the first error ends the reading.
pub open spec fn fragment_run(
    fns: Seq<FunV>,
    lines: Seq<Seq<char>>,
    file: Seq<char>,
    pg: &InitialPlugin,
    file_flags: Seq<FnFlag>,
    cfg: &GlobalConfig,
) -> Result<FragV, ErrV>
    decreases lines.len(),
{
    if lines.len() == 0 {
        Ok(FragV { pending: None, fns })
    } else {
        match fragment_run(fns, lines.drop_last(), file, pg, file_flags, cfg) {
            Ok(st) => line_step(st, lines.last(), file, pg, file_flags, cfg),
            Err(e) => Err(e),
        }
    }
}

/// Reading state over a fragment.
#[derive(Debug)]
pub enum FragmentState {
    Idle,
    /// An open directive waits for the line it decorates.
    Awaiting(Directive),
}

impl FragmentState {
    pub open spec fn pending(&self) -> Option<DirectiveV> {
        match self {
            FragmentState::Idle => None,
            FragmentState::Awaiting(d) => Some(d@),
        }
    }
}

fn finish(r: Result<(), ScanningError>) -> (out: Result<FragmentState, ScanningError>)
    ensures
        r is Ok <==> out is Ok,
        out matches Ok(s) ==> s.pending() is None,
        out matches Err(e) ==> res_view(r) == Err::<(), ErrV>(err_view(e)),
{
    match r {
        Ok(()) => Ok(FragmentState::Idle),
        Err(e) => Err(e),
    }
}

fn on_directive(
    directives: &str,
    file_path: &str,
    fns: &mut Vec<Fun>,
    global_config: &GlobalConfig,
) -> (r: Result<FragmentState, ScanningError>)
    ensures
        ({
            let s = directive_line(fun_views(old(fns)@), directives@, file_path@, global_config);
            &&& r matches Ok(ns) ==> (s matches Ok(st) && ns.pending() == st.pending && fun_views(final(fns)@) == st.fns)
            &&& r matches Err(e) ==> s == Err::<FragV, ErrV>(err_view(e))
        }),
{
    let d = process_ext(Some(directives));
    if d.flags.contains(FnFlag::PG) {
        let Directive { name, alias: _, desc, flags, binds, cmd: _ } = d;
        match name {
            Some(n) => {
                let origin = pathbuf_to_string(file_path, global_config);
                let f = Fun { name: n, alias: None, desc, flags, cmd: None, binds, bin: None, fstring: None };
                finish(insert_fun(fns, f, origin.as_str()))
            },
            None => Ok(FragmentState::Idle),
        }
    } else if d.cmd.is_some() {
        let Directive { name, alias, desc, flags, binds, cmd } = d;
        match (name, cmd) {
            (Some(n), Some(c)) => finish(process_cmd(n, Some(file_path), alias, desc, c, flags, binds, fns, global_config)),
            _ => Ok(FragmentState::Idle),
        }
    } else {
        Ok(FragmentState::Awaiting(d))
    }
}

fn on_declaration(
    d: Directive,
    line: &str,
    file_path: &str,
    fns: &mut Vec<Fun>,
    pg: &InitialPlugin,
    file_flags: &FlagSet,
    global_config: &GlobalConfig,
) -> (r: Result<FragmentState, ScanningError>)
    ensures
        ({
            let s = declaration_line(fun_views(old(fns)@), d@, line@, file_path@, pg, file_flags@, global_config);
            &&& r matches Ok(ns) ==> (s matches Ok(st) && ns.pending() == st.pending && fun_views(final(fns)@) == st.fns)
            &&& r matches Err(e) ==> s == Err::<FragV, ErrV>(err_view(e))
        }),
{
    let ghost dv = d@;
    let Directive { name, alias, desc, mut flags, binds, cmd: _ } = d;
    flags.extend(file_flags);
    if flags.contains(FnFlag::CMD) {
        match global_config.cmd_regex.group_of(line, 1) {
            Some(cs) => {
                let fl = flags.without_script_incompatible();
                let cstring = replace_shell(cs.as_str(), pg);
                let name = match name {
                    Some(n) => n,
                    None => match global_config.name_from_cmd_regex.group_of(cstring.as_str(), 1) {
                        Some(x) => x,
                        None => cstring.clone(),
                    },
                };
                finish(process_cmd(name, Some(file_path), alias, desc, cstring, fl, binds, fns, global_config))
            },
            None => Ok(FragmentState::Idle),
        }
    } else if flags.contains(FnFlag::AL) || (alias.is_some() && global_config.alias_regex.group_of(line, 1).is_some()) {
        match global_config.alias_regex.group_of(line, 1) {
            Some(a) => {
                let raw = match global_config.alias_regex.group_of(line, 2) {
                    Some(v) => v,
                    None => a.clone(),
                };
                let fl = flags.without_script_incompatible();
                let alias_s = replace_shell(a.as_str(), pg);
                let value = replace_shell(raw.as_str(), pg);
                proof {
                    reveal_strlit("{{ alias }}");
                }
                let fname = replace(global_config.name_from_alias_template.as_str(), "{{ alias }}", alias_s.as_str());
                let f = Fun {
                    name: fname,
                    alias: Some(alias_s),
                    desc,
                    flags: fl,
                    cmd: Some(value),
                    binds,
                    bin: None,
                    fstring: None,
                };
                assert(f@ == alias_fun(shell_subst(a@, pg), shell_subst(raw@, pg), dv, f@.flags,
                    global_config.name_from_alias_template@));
                finish(insert_fun(fns, f, line))
            },
            None => Ok(FragmentState::Idle),
        }
    } else {
        match global_config.func_regex.group_of(line, 1) {
            Some(fs) => {
                let fl = flags.without_script_incompatible();
                let fstring = replace_shell(fs.as_str(), pg);
                finish(process_fstring(fstring.as_str(), None, fl, binds, fns, global_config, true))
            },
            None => Ok(FragmentState::Idle),
        }
    }
}

/// One transition of the fragment reader on `line`.
pub fn fragment_line(
    state: FragmentState,
    line: &str,
    file_path: &str,
    fns: &mut Vec<Fun>,
    pg: &InitialPlugin,
    file_flags: &FlagSet,
    global_config: &GlobalConfig,
) -> (r: Result<FragmentState, ScanningError>)
    ensures
        ({
            let s = line_step(FragV { pending: state.pending(), fns: fun_views(old(fns)@) }, line@, file_path@, pg, file_flags@, global_config);
            &&& r matches Ok(ns) ==> (s matches Ok(st) && ns.pending() == st.pending && fun_views(final(fns)@) == st.fns)
            &&& r matches Err(e) ==> s == Err::<FragV, ErrV>(err_view(e))
        }),
{
    let t = trim_start(line);
    if let Some(directives) = strip_prefix(t.as_str(), "# :") {
        on_directive(directives.as_str(), file_path, fns, global_config)
    } else {
        match state {
            FragmentState::Idle => Ok(FragmentState::Idle),
            FragmentState::Awaiting(d) => {
                if strip_prefix(t.as_str(), "#").is_some() || is_blank(line) {
                    Ok(FragmentState::Awaiting(d))
                } else {
                    on_declaration(d, line, file_path, fns, pg, file_flags, global_config)
                }
            },
        }
    }
}

proof fn lemma_run_fails_on(
    fns: Seq<FunV>,
    lines: Seq<Seq<char>>,
    i: int,
    file: Seq<char>,
    pg: &InitialPlugin,
    file_flags: Seq<FnFlag>,
    cfg: &GlobalConfig,
)
    requires
        0 <= i <= lines.len(),
        fragment_run(fns, lines.subrange(0, i), file, pg, file_flags, cfg) is Err,
    ensures
        fragment_run(fns, lines, file, pg, file_flags, cfg) == fragment_run(fns, lines.subrange(0, i), file, pg, file_flags, cfg),
    decreases lines.len() - i,
{
    if i < lines.len() {
        assert(lines.subrange(0, i + 1).drop_last() =~= lines.subrange(0, i));
        lemma_run_fails_on(fns, lines, i + 1, file, pg, file_flags, cfg);
    } else {
        assert(lines.subrange(0, i) =~= lines);
    }
}

/// Reads the lines of a shell fragment into the group's function table.
pub fn populate_from_file(
    lines: &Vec<String>,
    file_path: &str,
    fns: &mut Vec<Fun>,
    pg: &InitialPlugin,
    file_flags: &FlagSet,
    global_config: &GlobalConfig,
) -> (r: Result<(), ScanningError>)
    ensures
        ({
            let s = fragment_run(fun_views(old(fns)@), views(lines@), file_path@, pg, file_flags@, global_config);
            &&& r is Ok ==> (s matches Ok(st) && fun_views(final(fns)@) == st.fns)
            &&& r matches Err(e) ==> s == Err::<FragV, ErrV>(err_view(e))
        }),
{
    let mut state = FragmentState::Idle;
    let mut i: usize = 0;
    let ghost fns0 = fun_views(fns@);
    assert(views(lines@).subrange(0, 0) =~= Seq::<Seq<char>>::empty());
    while i < lines.len()
        invariant
            i <= lines@.len(),
            fns0 == fun_views(old(fns)@),
            fragment_run(fns0, views(lines@).subrange(0, i as int), file_path@, pg, file_flags@, global_config)
                == Ok::<FragV, ErrV>(FragV { pending: state.pending(), fns: fun_views(fns@) }),
        decreases lines@.len() - i,
    {
        assert(views(lines@).subrange(0, i + 1).drop_last() =~= views(lines@).subrange(0, i as int));
        assert(views(lines@).subrange(0, i + 1).last() == lines@[i as int]@);
        match fragment_line(state, lines[i].as_str(), file_path, fns, pg, file_flags, global_config) {
            Ok(s) => {
                state = s;
            },
            Err(e) => {
                proof {
                    lemma_run_fails_on(fns0, views(lines@), i + 1, file_path@, pg, file_flags@, global_config);
                }
                return Err(e);
            },
        }
        i = i + 1;
    }
    assert(views(lines@).subrange(0, lines@.len() as int) =~= views(lines@));
    Ok(())
}

/// Reading a fragment keeps the names of a table distinct.
pub proof fn lemma_fragment_unique(
    fns: Seq<FunV>,
    lines: Seq<Seq<char>>,
    file: Seq<char>,
    pg: &InitialPlugin,
    file_flags: Seq<FnFlag>,
    cfg: &GlobalConfig,
)
    requires
        crate::model::names_unique(fns),
        fragment_run(fns, lines, file, pg, file_flags, cfg) is Ok,
    ensures
        crate::model::names_unique(fragment_run(fns, lines, file, pg, file_flags, cfg)->Ok_0.fns),
    decreases lines.len(),
{
    crate::model::lemma_insert_unique();
    crate::scan::lemma_fstring_unique();
    if lines.len() > 0 {
        lemma_fragment_unique(fns, lines.drop_last(), file, pg, file_flags, cfg);
    }
}

/// A directive line that declares a group reference or a literal command
/// whose name the table already holds (from the table given, or from an
/// earlier line of the file) fails with a duplicate-name error naming it.
pub proof fn lemma_directive_taken_name(fns: Seq<FunV>, rest: Seq<char>, file: Seq<char>, cfg: &GlobalConfig)
    requires
        directive_of(Some(rest)).name matches Some(n) && crate::model::fun_names(fns).contains(n),
        directive_of(Some(rest)).flags.contains(FnFlag::PG) || directive_of(Some(rest)).cmd is Some,
    ensures
        directive_line(fns, rest, file, cfg) matches Err(ErrV::DuplicateFunctionName(m, _))
            && m == directive_of(Some(rest)).name->0,
{
}

/// A declaration line that defines an alias or a command whose function name
/// the table already holds fails with a duplicate-name error naming it.
pub proof fn lemma_declaration_taken_name(
    fns: Seq<FunV>,
    d: DirectiveV,
    line: Seq<char>,
    file: Seq<char>,
    pg: &InitialPlugin,
    file_flags: Seq<FnFlag>,
    cfg: &GlobalConfig,
    f: FunV,
)
    requires
        crate::model::fun_names(fns).contains(f.name),
        ({
            let flags = union_seq(d.flags, file_flags);
            ||| (cfg.alias_regex.group(line, 1) matches Some(a) && !flags.contains(FnFlag::CMD)
                && (flags.contains(FnFlag::AL) || d.alias is Some) && f == alias_fun(shell_subst(a, pg),
                    shell_subst(match cfg.alias_regex.group(line, 2) { Some(v) => v, None => a }, pg), d,
                    script_flags(flags), cfg.name_from_alias_template@))
            ||| (cfg.cmd_regex.group(line, 1) matches Some(cs) && flags.contains(FnFlag::CMD) && f == cmd_fun(
                match d.name {
                    Some(n) => n,
                    None => match cfg.name_from_cmd_regex.group(shell_subst(cs, pg), 1) {
                        Some(x) => x,
                        None => shell_subst(cs, pg),
                    },
                }, d.alias, d.desc, shell_subst(cs, pg), script_flags(flags), d.binds))
        }),
    ensures
        declaration_line(fns, d, line, file, pg, file_flags, cfg) matches Err(ErrV::DuplicateFunctionName(m, _)) && m == f.name,
{
}

} // verus!
