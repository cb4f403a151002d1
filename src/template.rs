//! Placeholder substitution over a fixed vocabulary, and the resolution of a
//! function's invocation.
use vstd::prelude::*;
use crate::config::GlobalConfig;
use crate::flags::{FnFlag, flag_name, provision_flag};
use crate::model::{Fun, FunV, Initial, PluginV, Plugin, alias_or_space, effective_alias, or_empty};
use crate::text::{join, join_seq, same_text, subst, substitute, views};

verus! {

/// Placeholders of a name, an alias and a description.
pub open spec fn simple_keys() -> Seq<Seq<char>> {
    seq!["{{ name }}"@, "{{ alias }}"@, "{{ desc }}"@]
}

/// Placeholders of the owning group.
pub open spec fn group_keys() -> Seq<Seq<char>> {
    seq!["{{ pg_name }}"@, "{{ pg_alias }}"@]
}

/// Placeholders of the resolved invocation and the flag list.
pub open spec fn full_keys() -> Seq<Seq<char>> {
    seq!["{{ cmds }}"@, "{{ flags }}"@]
}

/// `s` with name, alias and description filled in.
pub open spec fn fill_simple(s: Seq<char>, name: Seq<char>, alias: Option<Seq<char>>, desc: Option<Seq<char>>) -> Seq<char> {
    subst(s, simple_keys(), seq![name, effective_alias(name, alias), or_empty(desc)])
}

/// The alias written into a template: the effective alias, or with
/// `space` the alias as set (a space where there is none).
pub open spec fn pick_alias(name: Seq<char>, alias: Option<Seq<char>>, space: bool) -> Seq<char> {
    if space { alias_or_space(alias) } else { effective_alias(name, alias) }
}

/// The flag list written with a comma before, between and after the names, so
/// that `,NAME,` can be searched for.
pub open spec fn flags_text(f: Seq<FnFlag>) -> Seq<char> {
    ","@ + join_seq(f.map_values(|x: FnFlag| flag_name(x)), ","@) + ","@
}

/// `s` filled in for group `pg` and, if given, function `fun`; `extra` gives
/// the resolved invocation and the flag list.
pub open spec fn fill(
    s: Seq<char>,
    pg: PluginV,
    fun: Option<FunV>,
    extra: Option<(Seq<char>, Seq<char>)>,
    space: bool,
) -> Seq<char> {
    let gv = seq![pg.name, pick_alias(pg.name, pg.alias, space)];
    match fun {
        None => subst(s, group_keys(), gv),
        Some(f) => {
            let fv = seq![f.name, pick_alias(f.name, f.alias, space), or_empty(f.desc)];
            match extra {
                None => subst(s, group_keys() + simple_keys(), gv + fv),
                Some(e) => subst(s, group_keys() + simple_keys() + full_keys(), gv + fv + seq![e.0, e.1]),
            }
        },
    }
}

/// Some flag of `f` makes the function invoked through a provided name.
pub open spec fn provisions(f: Seq<FnFlag>) -> bool {
    exists|i: int| 0 <= i < f.len() && provision_flag(#[trigger] f[i])
}

/// The distinguished catch-all group.
pub open spec fn catch_all(name: Seq<char>) -> bool {
    name == "base"@
}

/// The invocation of `f` in group `pg` used in listings and links.
pub open spec fn cmd_of(f: FunV, pg: PluginV, selector_tpl: Seq<char>, fn_tpl: Seq<char>) -> Seq<char> {
    if catch_all(pg.name) || f.flags.contains(FnFlag::NN) {
        f.name
    } else if f.flags.contains(FnFlag::PG) {
        fill_simple(selector_tpl, f.name, f.alias, f.desc)
    } else if provisions(f.flags) {
        fill(fn_tpl, pg, Some(f), None, false)
    } else {
        fill(match f.cmd { Some(c) => c, None => fn_tpl }, pg, Some(f), None, false)
    }
}

/// The invocation behind an alias of `f`: as `cmd_of`, but a literal command
/// is used even where the function is provisioned.
pub open spec fn real_cmd_of(f: FunV, pg: PluginV, selector_tpl: Seq<char>, fn_tpl: Seq<char>) -> Seq<char> {
    if catch_all(pg.name) || f.flags.contains(FnFlag::NN) {
        f.name
    } else if f.flags.contains(FnFlag::PG) {
        fill_simple(selector_tpl, f.name, f.alias, f.desc)
    } else {
        fill(match f.cmd { Some(c) => c, None => fn_tpl }, pg, Some(f), None, false)
    }
}

/// `s` filled in as `templatize` does.
pub open spec fn templatized(
    fun: Option<FunV>,
    pg: PluginV,
    s: Seq<char>,
    selector_tpl: Seq<char>,
    fn_tpl: Seq<char>,
    simple: bool,
    space: bool,
) -> Seq<char> {
    match fun {
        Some(f) => if simple {
            fill(s, pg, fun, None, space)
        } else {
            fill(s, pg, fun, Some((cmd_of(f, pg, selector_tpl, fn_tpl), flags_text(f.flags))), space)
        },
        None => fill(s, pg, fun, None, space),
    }
}

/// Fills name, alias and description of `item` into `s`.
pub fn templatize_simple<T: Initial>(item: &T, s: &str) -> (r: String)
    ensures
        r@ == fill_simple(s@, item.name_v(), item.alias_v(), item.desc_v()),
{
    let mut keys: Vec<String> = Vec::new();
    keys.push(String::from_str("{{ name }}"));
    keys.push(String::from_str("{{ alias }}"));
    keys.push(String::from_str("{{ desc }}"));
    let mut vals: Vec<String> = Vec::new();
    vals.push(item.get_name());
    vals.push(item.get_alias());
    vals.push(match item.get_desc() {
        Some(d) => d,
        None => String::new(),
    });
    proof {
        reveal_strlit("{{ name }}");
        reveal_strlit("{{ alias }}");
        reveal_strlit("{{ desc }}");
        assert(views(keys@) =~= simple_keys());
        assert(views(vals@) =~= seq![item.name_v(), effective_alias(item.name_v(), item.alias_v()), or_empty(item.desc_v())]);
    }
    substitute(s, &keys, &vals)
}

/// The flag list of `f` as written into templates.
pub fn flags_string(f: &Fun) -> (r: String)
    ensures
        r@ == flags_text(f@.flags),
{
    let mut names: Vec<String> = Vec::new();
    let mut i: usize = 0;
    while i < f.flags.len()
        invariant
            i <= f.flags@.len(),
            views(names@) == f.flags@.subrange(0, i as int).map_values(|x: FnFlag| flag_name(x)),
        decreases f.flags@.len() - i,
    {
        let fl = f.flags.get(i);
        let n = fl.name();
        let ghost prev = names@;
        names.push(n);
        assert(views(names@) =~= views(prev).push(flag_name(fl)));
        assert(f.flags@.subrange(0, i + 1) =~= f.flags@.subrange(0, i as int).push(fl));
        assert(f.flags@.subrange(0, i + 1).map_values(|x: FnFlag| flag_name(x))
            =~= f.flags@.subrange(0, i as int).map_values(|x: FnFlag| flag_name(x)).push(flag_name(fl)));
        i = i + 1;
    }
    assert(f.flags@.subrange(0, f.flags@.len() as int) =~= f.flags@);
    let body = join(&names, ",");
    let r = crate::text::cat(&crate::text::cat(",", body.as_str()), ",");
    r
}

fn push_key(keys: &mut Vec<String>, k: &str)
    requires
        k@.len() > 0,
        forall|j: int| 0 <= j < old(keys)@.len() ==> (#[trigger] old(keys)@[j])@.len() > 0,
    ensures
        views(final(keys)@) == views(old(keys)@).push(k@),
        forall|j: int| 0 <= j < final(keys)@.len() ==> (#[trigger] final(keys)@[j])@.len() > 0,
{
    keys.push(String::from_str(k));
    assert(views(keys@) =~= views(old(keys)@).push(k@));
}

/// `s` filled in for `pg`, `fun` and, if given, invocation and flag list.
fn fill_with(fun: Option<&Fun>, pg: &Plugin, s: &str, extra: Option<(String, String)>, space: bool) -> (r: String)
    ensures
        r@ == fill(
            s@,
            pg@,
            match fun { Some(f) => Some(f@), None => None },
            match extra { Some(e) => Some((e.0@, e.1@)), None => None },
            space,
        ),
{
    proof {
        reveal_strlit("{{ pg_name }}");
        reveal_strlit("{{ pg_alias }}");
        reveal_strlit("{{ name }}");
        reveal_strlit("{{ alias }}");
        reveal_strlit("{{ desc }}");
        reveal_strlit("{{ cmds }}");
        reveal_strlit("{{ flags }}");
    }
    let mut keys: Vec<String> = Vec::new();
    let mut vals: Vec<String> = Vec::new();
    push_key(&mut keys, "{{ pg_name }}");
    push_key(&mut keys, "{{ pg_alias }}");
    vals.push(pg.name.clone());
    vals.push(if space { pg.get_alias_or_space() } else { pg.get_alias() });
    let ghost gv = seq![pg@.name, pick_alias(pg@.name, pg@.alias, space)];
    assert(views(keys@) =~= group_keys());
    assert(views(vals@) =~= gv);
    if let Some(f) = fun {
        push_key(&mut keys, "{{ name }}");
        push_key(&mut keys, "{{ alias }}");
        push_key(&mut keys, "{{ desc }}");
        vals.push(f.name.clone());
        vals.push(if space { f.get_alias_or_space() } else { f.get_alias() });
        vals.push(match f.get_desc() {
            Some(d) => d,
            None => String::new(),
        });
        let ghost fv = seq![f@.name, pick_alias(f@.name, f@.alias, space), or_empty(f@.desc)];
        assert(views(keys@) =~= group_keys() + simple_keys());
        assert(views(vals@) =~= gv + fv);
        if let Some((c, fl)) = extra {
            push_key(&mut keys, "{{ cmds }}");
            push_key(&mut keys, "{{ flags }}");
            let ghost ev = seq![c@, fl@];
            vals.push(c);
            vals.push(fl);
            assert(views(keys@) =~= group_keys() + simple_keys() + full_keys());
            assert(views(vals@) =~= gv + fv + ev);
        }
    }
    substitute(s, &keys, &vals)
}

/// Fills group, function and, unless `simple`, invocation and flag list into
/// `s`, in one pass; with `alias_or_space` aliases are written as set.
pub fn templatize(
    fun: Option<&Fun>,
    pg: &Plugin,
    s: &str,
    global_config: &GlobalConfig,
    simple: bool,
    alias_or_space: bool,
) -> (r: String)
    ensures
        r@ == templatized(
            match fun { Some(f) => Some(f@), None => None },
            pg@,
            s@,
            global_config.selector_widget_template@,
            global_config.fn_template@,
            simple,
            alias_or_space,
        ),
{
    match fun {
        Some(f) => {
            if simple {
                fill_with(fun, pg, s, None, alias_or_space)
            } else {
                let c = f.get_cmd(pg, global_config);
                let fl = flags_string(f);
                fill_with(fun, pg, s, Some((c, fl)), alias_or_space)
            }
        },
        None => fill_with(fun, pg, s, None, alias_or_space),
    }
}

impl Fun {
    /// The invocation used in listings and as the name of links: the bare
    /// name in the catch-all group or with the no-namespace flag, the selector
    /// widget of a group reference, else the function template or the literal
    /// command.
    pub fn get_cmd(&self, pg: &Plugin, global_config: &GlobalConfig) -> (r: String)
        ensures
            r@ == cmd_of(self@, pg@, global_config.selector_widget_template@, global_config.fn_template@),
            catch_all(pg@.name) || self@.flags.contains(FnFlag::NN) ==> r@ == self@.name,
    {
        if same_text(pg.name.as_str(), "base") || self.flags.contains(FnFlag::NN) {
            self.name.clone()
        } else if self.flags.contains(FnFlag::PG) {
            templatize_simple(self, global_config.selector_widget_template.as_str())
        } else if self.does_provision() {
            fill_with(Some(self), pg, global_config.fn_template.as_str(), None, false)
        } else {
            let t = match &self.cmd {
                Some(c) => c.as_str(),
                None => global_config.fn_template.as_str(),
            };
            fill_with(Some(self), pg, t, None, false)
        }
    }

    /// The invocation behind an alias of the function.
    pub fn get_real_cmd(&self, pg: &Plugin, global_config: &GlobalConfig) -> (r: String)
        ensures
            r@ == real_cmd_of(self@, pg@, global_config.selector_widget_template@, global_config.fn_template@),
    {
        if same_text(pg.name.as_str(), "base") || self.flags.contains(FnFlag::NN) {
            self.name.clone()
        } else if self.flags.contains(FnFlag::PG) {
            templatize_simple(self, global_config.selector_widget_template.as_str())
        } else {
            let t = match &self.cmd {
                Some(c) => c.as_str(),
                None => global_config.fn_template.as_str(),
            };
            fill_with(Some(self), pg, t, None, false)
        }
    }
}

} // verus!
