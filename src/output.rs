//! The generated text: per-group listings and extras, the cross-group
//! tables, source lines and the global initialization document.
use vstd::prelude::*;
use crate::config::GlobalConfig;
use crate::flags::FnFlag;
use crate::group::plugin_views;
use crate::model::{
    Fun, FunV, Initial, Plugin, PluginV, alias_or_space, effective_alias, fun_names, fun_views, names_unique,
    or_empty,
};
use crate::scan::{path_text, pathbuf_to_string, pathbuf_to_string_basic, rep_if};
use crate::config::{is_absolute, path_is_absolute};
use crate::text::{subst, substitute};
use crate::pattern::opt_view;
use crate::order::{is_perm, sort_order, sort_spec, sorted_by};
use crate::template::{cmd_of, fill_simple, real_cmd_of, templatize, templatize_simple, templatized};
use crate::text::{cat, join, join_seq, views};

verus! {

/// A function appears in listings unless flagged not to.
pub open spec fn listed(f: FunV) -> bool {
    !f.flags.contains(FnFlag::NA)
}

/// The listed functions of `fs`, in order.
pub open spec fn listed_fns(fs: Seq<FunV>) -> Seq<FunV>
    decreases fs.len(),
{
    if fs.len() == 0 {
        fs
    } else if listed(fs.last()) {
        listed_fns(fs.drop_last()).push(fs.last())
    } else {
        listed_fns(fs.drop_last())
    }
}

/// `order` lists `keys` in strictly ascending order.
pub open spec fn strictly_sorted(order: Seq<usize>, keys: Seq<Seq<char>>) -> bool {
    forall|a: int, b: int| 0 <= a < b < order.len() ==> crate::order::text_le(
        #[trigger] keys[order[a] as int],
        #[trigger] keys[order[b] as int],
    ) && keys[order[a] as int] != keys[order[b] as int]
}

proof fn lemma_listed_unique(fs: Seq<FunV>)
    requires
        names_unique(fs),
    ensures
        names_unique(listed_fns(fs)),
        forall|x: FunV| #[trigger] listed_fns(fs).contains(x) ==> fs.contains(x),
    decreases fs.len(),
{
    if fs.len() > 0 {
        let init = fs.drop_last();
        assert(names_unique(init)) by {
            assert forall|i: int, j: int| 0 <= i < j < init.len() implies (#[trigger] init[i]).name != (#[trigger] init[j]).name by {
                assert(init[i] == fs[i] && init[j] == fs[j]);
            }
        }
        lemma_listed_unique(init);
        let w = listed_fns(init);
        assert forall|x: FunV| #[trigger] listed_fns(fs).contains(x) implies fs.contains(x) by {
            let wf = listed_fns(fs);
            let j = choose|j: int| 0 <= j < wf.len() && wf[j] == x;
            if j < w.len() {
                assert(w[j] == x);
                assert(w.contains(x));
                let i = choose|i: int| 0 <= i < init.len() && init[i] == x;
                assert(fs[i] == x);
            } else {
                assert(fs[fs.len() - 1] == x);
            }
        }
        if listed(fs.last()) {
            let r = w.push(fs.last());
            assert forall|i: int, j: int| 0 <= i < j < r.len() implies (#[trigger] r[i]).name != (#[trigger] r[j]).name by {
                if j == w.len() {
                    assert(w.contains(w[i]));
                    let q = choose|q: int| 0 <= q < init.len() && init[q] == w[i];
                    assert(fs[q] == init[q]);
                } else {
                    assert(r[i] == w[i] && r[j] == w[j]);
                }
            }
        }
    }
}

/// The row template of a group's listing.
pub open spec fn table_template(p: PluginV, cfg: &GlobalConfig) -> Seq<char> {
    match p.fn_table_template {
        Some(t) => t,
        None => cfg.fn_table_template@,
    }
}

/// The listing row of `f` in group `p`.
pub open spec fn fn_row(f: FunV, p: PluginV, cfg: &GlobalConfig) -> Seq<char> {
    templatized(Some(f), p, table_template(p, cfg), cfg.selector_widget_template@, cfg.fn_template@, false, false)
}

/// The rows of `fs` taken in the order `order`.
pub open spec fn rows_in(order: Seq<usize>, fs: Seq<FunV>, p: PluginV, cfg: &GlobalConfig) -> Seq<Seq<char>> {
    order.map_values(|k: usize| fn_row(fs[k as int], p, cfg))
}

fn listed_indices(fns: &Vec<Fun>) -> (r: (Vec<usize>, Vec<String>))
    ensures
        r.0@.len() == listed_fns(fun_views(fns@)).len(),
        r.1@.len() == r.0@.len(),
        forall|k: int| 0 <= k < r.0@.len() ==> (#[trigger] r.0@[k]) < fns@.len()
            && fns@[r.0@[k] as int]@ == listed_fns(fun_views(fns@))[k],
        views(r.1@) == fun_names(listed_fns(fun_views(fns@))),
{
    let mut idx: Vec<usize> = Vec::new();
    let mut names: Vec<String> = Vec::new();
    let mut i: usize = 0;
    assert(fun_views(fns@).subrange(0, 0) =~= Seq::<FunV>::empty());
    while i < fns.len()
        invariant
            i <= fns@.len(),
            idx@.len() == listed_fns(fun_views(fns@).subrange(0, i as int)).len(),
            names@.len() == idx@.len(),
            forall|k: int| 0 <= k < idx@.len() ==> (#[trigger] idx@[k]) < fns@.len()
                && fns@[idx@[k] as int]@ == listed_fns(fun_views(fns@).subrange(0, i as int))[k],
            views(names@) == fun_names(listed_fns(fun_views(fns@).subrange(0, i as int))),
        decreases fns@.len() - i,
    {
        assert(fun_views(fns@).subrange(0, i + 1).drop_last() =~= fun_views(fns@).subrange(0, i as int));
        assert(fun_views(fns@).subrange(0, i + 1).last() == fns@[i as int]@);
        let ghost ib = idx@;
        let ghost nb = names@;
        if !fns[i].flags.contains(FnFlag::NA) {
            idx.push(i);
            names.push(fns[i].name.clone());
            assert(views(names@) =~= views(nb).push(fns@[i as int]@.name));
            assert(views(names@) =~= fun_names(listed_fns(fun_views(fns@).subrange(0, i + 1))));
        }
        i = i + 1;
    }
    assert(fun_views(fns@).subrange(0, fns@.len() as int) =~= fun_views(fns@));
    (idx, names)
}

impl Plugin {
    /// The group's listing: one row per listed function, in ascending order
    /// of name (strictly, as a group's function names are distinct), through the group's or the global row template; `None` where
    /// no function is listed.
    pub fn fn_table(&self, global_config: &GlobalConfig) -> (r: Option<String>)
        ensures
            ({
                let fs = listed_fns(self@.fns);
                &&& r is None <==> fs.len() == 0
                &&& r matches Some(t) ==> t@ == join_seq(rows_in(sort_spec(fun_names(fs), fs.len()), fs, self@, global_config), "\n"@)
                &&& is_perm(sort_spec(fun_names(fs), fs.len()), fs.len())
                &&& sorted_by(sort_spec(fun_names(fs), fs.len()), fun_names(fs))
                &&& names_unique(self@.fns) ==> strictly_sorted(sort_spec(fun_names(fs), fs.len()), fun_names(fs))
            }),
    {
        let ghost fs = listed_fns(self@.fns);
        let (idx, names) = listed_indices(&self.fns);
        let order = sort_order(&names);
        let template = match &self.fn_table_template {
            Some(t) => t.as_str(),
            None => global_config.fn_table_template.as_str(),
        };
        let mut rows: Vec<String> = Vec::new();
        let mut k: usize = 0;
        while k < order.len()
            invariant
                k <= order@.len(),
                fs == listed_fns(self@.fns),
                is_perm(order@, fs.len()),
                idx@.len() == fs.len(),
                forall|q: int| 0 <= q < idx@.len() ==> (#[trigger] idx@[q]) < self.fns@.len()
                    && self.fns@[idx@[q] as int]@ == fs[q],
                template@ == table_template(self@, global_config),
                views(rows@) == rows_in(order@, fs, self@, global_config).subrange(0, k as int),
            decreases order@.len() - k,
        {
            let j = idx[order[k]];
            let row = templatize(Some(&self.fns[j]), self, template, global_config, false, false);
            let ghost rb = rows@;
            rows.push(row);
            assert(views(rows@) =~= views(rb).push(fn_row(fs[order@[k as int] as int], self@, global_config)));
            k = k + 1;
            assert(views(rows@) =~= rows_in(order@, fs, self@, global_config).subrange(0, k as int));
        }
        assert(rows_in(order@, fs, self@, global_config).subrange(0, k as int) =~= rows_in(order@, fs, self@, global_config));
        proof {
            if names_unique(self@.fns) {
                lemma_listed_unique(self@.fns);
                let names = fun_names(fs);
                assert forall|a: int, b: int| 0 <= a < b < order@.len() implies crate::order::text_le(
                    #[trigger] names[order@[a] as int],
                    #[trigger] names[order@[b] as int],
                ) && names[order@[a] as int] != names[order@[b] as int] by {
                    let x = order@[a] as int;
                    let y = order@[b] as int;
                    assert(x != y);
                    if x < y {
                        assert(fs[x].name != fs[y].name);
                    } else {
                        assert(fs[y].name != fs[x].name);
                    }
                }
            }
        }
        if rows.len() == 0 {
            None
        } else {
            Some(join(&rows, "\n"))
        }
    }
}

/// A wrapper body: `pc` followed by the three fixed pieces around the
/// invocation `c`, which is written twice with its prefix.
pub open spec fn wrapper(pc: Seq<char>, a: Seq<char>, pre: Seq<char>, c: Seq<char>, b: Seq<char>, z: Seq<char>) -> Seq<char> {
    pc + a + pre + c + b + pre + c + z
}

fn wrapper_line(pc: &str, a: &str, pre: &str, c: &str, b: &str, z: &str) -> (r: String)
    ensures
        r@ == wrapper(pc@, a@, pre@, c@, b@, z@),
{
    let mut r = cat(pc, a);
    r.append(pre);
    r.append(c);
    r.append(b);
    r.append(pre);
    r.append(c);
    r.append(z);
    r
}

/// The widget registration line.
pub open spec fn zle_line(pc: Seq<char>) -> Seq<char> {
    "zle -N "@ + pc
}

/// The wrapper lines of one of the five fixed shapes, chosen by run-mode flag.
pub open spec fn wrapper_lines(f: FunV, pc: Seq<char>, pre: Seq<char>, c: Seq<char>) -> Seq<Seq<char>> {
    if f.flags.contains(FnFlag::WJR) {
        seq![
            wrapper(pc, "() { if zle; then local INIT_BUFFER=$BUFFER; local INIT_CURSOR=$CURSOR; "@, pre, c,
                "; BUFFER=$INIT_BUFFER; CURSOR=$INIT_CURSOR; zle redisplay; else "@, " $@; fi; }"@),
            zle_line(pc),
        ]
    } else if f.flags.contains(FnFlag::PBG) {
        seq![pc + "() { pueue add  --escape -- "@ + pre + c + " $@ >/dev/null 2>&1; }"@]
    } else if f.flags.contains(FnFlag::WJSUB) {
        seq![
            wrapper(pc, "() { if zle; then LBUFFER+=\"$("@, pre, c, " | tr '\n' ' \\\n') \"; else "@, " $@; fi }"@),
            zle_line(pc),
        ]
    } else if f.flags.contains(FnFlag::WR) {
        seq![
            wrapper(pc, "() { if zle; then zle push-input; BUFFER=\""@, pre, c, " \"; else "@, " $@; fi; }"@),
            zle_line(pc),
        ]
    } else if f.flags.contains(FnFlag::WSUB) {
        seq![
            wrapper(pc, "() { if zle; then local wgArgs; vared -p \"Args: \" -c wgArgs; LBUFFER+=\"$("@, pre, c,
                " ${(z)wgArgs}  | tr '\n' ' \\\n') \"; else "@, " $@; fi }"@),
            zle_line(pc),
        ]
    } else {
        Seq::empty()
    }
}

/// A key binding line.
pub open spec fn bind_line(kb: Seq<char>, target: Seq<char>) -> Seq<char> {
    "bindkey '"@ + kb + "' \""@ + target + "\""@
}

/// The binding lines of the non-empty keys of `kbs`.
pub open spec fn bind_lines(kbs: Seq<Seq<char>>, target: Seq<char>) -> Seq<Seq<char>>
    decreases kbs.len(),
{
    if kbs.len() == 0 {
        Seq::empty()
    } else if kbs.last().len() > 0 {
        bind_lines(kbs.drop_last(), target).push(bind_line(kbs.last(), target))
    } else {
        bind_lines(kbs.drop_last(), target)
    }
}

/// The extra lines of one function: its alias, its widget wrapper and its
/// key bindings.
pub open spec fn fun_lines(f: FunV, p: PluginV, cfg: &GlobalConfig) -> Seq<Seq<char>> {
    let pc = cmd_of(f, p, cfg.selector_widget_template@, cfg.fn_template@);
    let c = real_cmd_of(f, p, cfg.selector_widget_template@, cfg.fn_template@);
    let pre = if pc == c { "command "@ } else { Seq::<char>::empty() };
    let alias_part = if !f.flags.contains(FnFlag::AL) && !f.flags.contains(FnFlag::PG) {
        match f.alias {
            Some(a) => if a.len() > 0 { seq!["alias "@ + a + "=\""@ + c + "\""@] } else { Seq::empty() },
            None => Seq::empty(),
        }
    } else {
        Seq::empty()
    };
    alias_part + wrapper_lines(f, pc, pre, c) + bind_lines(f.binds, pc)
}

/// The extra lines of the functions `fs`, in order.
pub open spec fn funs_lines(fs: Seq<FunV>, p: PluginV, cfg: &GlobalConfig) -> Seq<Seq<char>>
    decreases fs.len(),
{
    if fs.len() == 0 {
        Seq::empty()
    } else {
        funs_lines(fs.drop_last(), p, cfg) + fun_lines(fs.last(), p, cfg)
    }
}

/// The binding lines of the group's own keys: each opens its selector widget.
pub open spec fn group_bind_lines(kbs: Seq<Seq<char>>, target: Seq<char>) -> Seq<Seq<char>> {
    kbs.map_values(|kb: Seq<char>| bind_line(kb, target))
}

/// The extras block of a group, as lines.
pub open spec fn extra_lines(p: PluginV, cfg: &GlobalConfig) -> Seq<Seq<char>> {
    funs_lines(p.fns, p, cfg) + group_bind_lines(p.binds, fill_simple(cfg.selector_widget_template@, p.name, p.alias, p.desc))
}

fn push_line(lines: &mut Vec<String>, l: String)
    ensures
        views(final(lines)@) == views(old(lines)@).push(l@),
{
    lines.push(l);
    assert(views(lines@) =~= views(old(lines)@).push(l@));
}

fn bind_line_of(kb: &str, target: &str) -> (r: String)
    ensures
        r@ == bind_line(kb@, target@),
{
    let mut r = cat("bindkey '", kb);
    r.append("' \"");
    r.append(target);
    r.append("\"");
    r
}

fn add_fun_lines(lines: &mut Vec<String>, f: &Fun, p: &Plugin, global_config: &GlobalConfig)
    ensures
        views(final(lines)@) == views(old(lines)@) + fun_lines(f@, p@, global_config),
{
    let ghost l0 = views(lines@);
    let pc = f.get_cmd(p, global_config);
    let c = f.get_real_cmd(p, global_config);
    let pre = if same(&pc, &c) { "command " } else { "" };
    let ghost pcv = pc@;
    let ghost cv = c@;
    proof {
        reveal_strlit("");
    }
    assert(pre@ == (if pcv == cv { "command "@ } else { Seq::<char>::empty() }));
    if !f.flags.contains(FnFlag::AL) && !f.flags.contains(FnFlag::PG) {
        if let Some(a) = &f.alias {
            if a.unicode_len() > 0 {
                let mut l = cat("alias ", a.as_str());
                l.append("=\"");
                l.append(c.as_str());
                l.append("\"");
                push_line(lines, l);
            }
        }
    }
    let ghost l1 = views(lines@);
    assert(l1 =~= l0 + (if !f@.flags.contains(FnFlag::AL) && !f@.flags.contains(FnFlag::PG) {
        match f@.alias {
            Some(a) => if a.len() > 0 { seq!["alias "@ + a + "=\""@ + cv + "\""@] } else { Seq::empty() },
            None => Seq::empty(),
        }
    } else {
        Seq::empty()
    }));
    if f.flags.contains(FnFlag::WJR) {
        push_line(lines, wrapper_line(pc.as_str(), "() { if zle; then local INIT_BUFFER=$BUFFER; local INIT_CURSOR=$CURSOR; ", pre, c.as_str(),
            "; BUFFER=$INIT_BUFFER; CURSOR=$INIT_CURSOR; zle redisplay; else ", " $@; fi; }"));
        push_line(lines, cat("zle -N ", pc.as_str()));
    } else if f.flags.contains(FnFlag::PBG) {
        let mut l = cat(pc.as_str(), "() { pueue add  --escape -- ");
        l.append(pre);
        l.append(c.as_str());
        l.append(" $@ >/dev/null 2>&1; }");
        push_line(lines, l);
    } else if f.flags.contains(FnFlag::WJSUB) {
        push_line(lines, wrapper_line(pc.as_str(), "() { if zle; then LBUFFER+=\"$(", pre, c.as_str(),
            " | tr '\n' ' \\\n') \"; else ", " $@; fi }"));
        push_line(lines, cat("zle -N ", pc.as_str()));
    } else if f.flags.contains(FnFlag::WR) {
        push_line(lines, wrapper_line(pc.as_str(), "() { if zle; then zle push-input; BUFFER=\"", pre, c.as_str(),
            " \"; else ", " $@; fi; }"));
        push_line(lines, cat("zle -N ", pc.as_str()));
    } else if f.flags.contains(FnFlag::WSUB) {
        push_line(lines, wrapper_line(pc.as_str(), "() { if zle; then local wgArgs; vared -p \"Args: \" -c wgArgs; LBUFFER+=\"$(", pre, c.as_str(),
            " ${(z)wgArgs}  | tr '\n' ' \\\n') \"; else ", " $@; fi }"));
        push_line(lines, cat("zle -N ", pc.as_str()));
    }
    let ghost l2 = views(lines@);
    assert(l2 =~= l1 + wrapper_lines(f@, pcv, pre@, cv));
    let mut i: usize = 0;
    assert(f@.binds.subrange(0, 0) =~= Seq::<Seq<char>>::empty());
    while i < f.binds.len()
        invariant
            i <= f.binds@.len(),
            pc@ == pcv,
            views(lines@) == l2 + bind_lines(f@.binds.subrange(0, i as int), pcv),
        decreases f.binds@.len() - i,
    {
        assert(f@.binds.subrange(0, i + 1).drop_last() =~= f@.binds.subrange(0, i as int));
        assert(f@.binds.subrange(0, i + 1).last() == f.binds@[i as int]@);
        if f.binds[i].unicode_len() > 0 {
            push_line(lines, bind_line_of(f.binds[i].as_str(), pc.as_str()));
            assert(views(lines@) =~= l2 + bind_lines(f@.binds.subrange(0, i + 1), pcv));
        }
        i = i + 1;
    }
    assert(f@.binds.subrange(0, f@.binds.len() as int) =~= f@.binds);
    assert(views(lines@) =~= l0 + fun_lines(f@, p@, global_config));
}

fn same(a: &String, b: &String) -> (r: bool)
    ensures
        r == (a@ == b@),
{
    *a == *b
}

impl Plugin {
    /// The extras block: per function its alias line, its widget wrapper and
    /// its key bindings, then the group's own key bindings; `None` where
    /// there are no lines, else the lines and a final newline, joined by
    /// newlines.
    pub fn extra_table(&self, global_config: &GlobalConfig) -> (r: Option<String>)
        ensures
            ({
                let ls = extra_lines(self@, global_config);
                &&& r is None <==> ls.len() == 0
                &&& r matches Some(t) ==> t@ == join_seq(ls.push("\n"@), "\n"@)
            }),
    {
        let mut lines: Vec<String> = Vec::new();
        let mut i: usize = 0;
        assert(self@.fns.subrange(0, 0) =~= Seq::<FunV>::empty());
        assert(views(lines@) =~= Seq::<Seq<char>>::empty());
        while i < self.fns.len()
            invariant
                i <= self.fns@.len(),
                views(lines@) == funs_lines(self@.fns.subrange(0, i as int), self@, global_config),
            decreases self.fns@.len() - i,
        {
            assert(self@.fns.subrange(0, i + 1).drop_last() =~= self@.fns.subrange(0, i as int));
            assert(self@.fns.subrange(0, i + 1).last() == self.fns@[i as int]@);
            add_fun_lines(&mut lines, &self.fns[i], self, global_config);
            i = i + 1;
        }
        assert(self@.fns.subrange(0, self@.fns.len() as int) =~= self@.fns);
        let ghost l1 = views(lines@);
        let target = templatize_simple(self, global_config.selector_widget_template.as_str());
        let mut j: usize = 0;
        while j < self.binds.len()
            invariant
                j <= self.binds@.len(),
                views(lines@) == l1 + group_bind_lines(self@.binds.subrange(0, j as int), target@),
            decreases self.binds@.len() - j,
        {
            push_line(&mut lines, bind_line_of(self.binds[j].as_str(), target.as_str()));
            j = j + 1;
            assert(views(lines@) =~= l1 + group_bind_lines(self@.binds.subrange(0, j as int), target@));
        }
        assert(self@.binds.subrange(0, j as int) =~= self@.binds);
        if lines.len() == 0 {
            None
        } else {
            push_line(&mut lines, String::from_str("\n"));
            Some(join(&lines, "\n"))
        }
    }
}

/// A group is proper unless its alias is set to the empty text.
pub open spec fn proper(p: PluginV) -> bool {
    !(p.alias matches Some(a) && a.len() == 0)
}

/// `ord` lists the proper groups of `v`, each once, in ascending order of name.
pub open spec fn proper_sorted(ord: Seq<usize>, v: Seq<PluginV>) -> bool {
    &&& ord.no_duplicates()
    &&& forall|k: int| 0 <= k < ord.len() ==> (#[trigger] ord[k]) < v.len() && proper(v[ord[k] as int])
    &&& forall|i: int| 0 <= i < v.len() && proper(#[trigger] v[i]) ==> ord.contains(i as usize)
    &&& forall|a: int, b: int| 0 <= a < b < ord.len() ==> crate::order::text_le(
        #[trigger] v[ord[a] as int].name,
        #[trigger] v[ord[b] as int].name,
    )
}

/// The indices of the proper groups of `v`, in order.
pub open spec fn proper_indices(v: Seq<PluginV>) -> Seq<usize>
    decreases v.len(),
{
    if v.len() == 0 {
        Seq::empty()
    } else if proper(v.last()) {
        proper_indices(v.drop_last()).push((v.len() - 1) as usize)
    } else {
        proper_indices(v.drop_last())
    }
}

/// The proper groups of `v`, sorted by name.
pub open spec fn proper_order(v: Seq<PluginV>) -> Seq<usize> {
    let ix = proper_indices(v);
    sort_spec(ix.map_values(|k: usize| v[k as int].name), ix.len()).map_values(|q: usize| ix[q as int])
}

/// The proper groups in ascending order of name.
pub fn sorted_proper(plugins: &Vec<Plugin>) -> (r: Vec<usize>)
    ensures
        proper_sorted(r@, plugin_views(plugins@)),
        r@ == proper_order(plugin_views(plugins@)),
{
    let ghost v = plugin_views(plugins@);
    let mut idx: Vec<usize> = Vec::new();
    let mut names: Vec<String> = Vec::new();
    let mut i: usize = 0;
    while i < plugins.len()
        invariant
            i <= plugins@.len(),
            v == plugin_views(plugins@),
            names@.len() == idx@.len(),
            idx@.no_duplicates(),
            forall|k: int| 0 <= k < idx@.len() ==> (#[trigger] idx@[k]) < i && proper(v[idx@[k] as int])
                && names@[k]@ == v[idx@[k] as int].name,
            forall|j: int| 0 <= j < i && proper(#[trigger] v[j]) ==> idx@.contains(j as usize),
            idx@ == proper_indices(v.subrange(0, i as int)),
            views(names@) == idx@.map_values(|k: usize| v[k as int].name),
        decreases plugins@.len() - i,
    {
        assert(v[i as int] == plugins@[i as int]@);
        assert(v.subrange(0, i + 1).drop_last() =~= v.subrange(0, i as int));
        assert(v.subrange(0, i + 1).last() == v[i as int]);
        let ghost nb = names@;
        if plugins[i].is_proper() {
            let ghost ib = idx@;
            idx.push(i);
            names.push(plugins[i].name.clone());
            assert(views(names@) =~= idx@.map_values(|k: usize| v[k as int].name));
            proof {
                assert forall|a: int, b: int| 0 <= a < b < idx@.len() implies idx@[a] != idx@[b] by {
                    if b == ib.len() {
                        assert(ib[a] < i);
                    }
                }
                assert forall|j: int| 0 <= j < i + 1 && proper(#[trigger] v[j]) implies idx@.contains(j as usize) by {
                    if j < i {
                        let q = choose|q: int| 0 <= q < ib.len() && ib[q] == j as usize;
                        assert(idx@[q] == j as usize);
                    } else {
                        assert(idx@[ib.len() as int] == i);
                    }
                }
            }
        }
        i = i + 1;
    }
    assert(v.subrange(0, i as int) =~= v);
    let order = sort_order(&names);
    let mut r: Vec<usize> = Vec::new();
    let mut k: usize = 0;
    while k < order.len()
        invariant
            k <= order@.len(),
            is_perm(order@, names@.len() as nat),
            sorted_by(order@, views(names@)),
            forall|j: usize| j < names@.len() ==> #[trigger] order@.contains(j),
            names@.len() == idx@.len(),
            idx@.no_duplicates(),
            forall|q: int| 0 <= q < idx@.len() ==> (#[trigger] idx@[q]) < plugins@.len() && proper(v[idx@[q] as int])
                && names@[q]@ == v[idx@[q] as int].name,
            r@ == order@.subrange(0, k as int).map_values(|q: usize| idx@[q as int]),
            order@ == sort_spec(views(names@), names@.len()),
            idx@ == proper_indices(v),
            views(names@) == idx@.map_values(|k: usize| v[k as int].name),
        decreases order@.len() - k,
    {
        r.push(idx[order[k]]);
        k = k + 1;
        assert(r@ =~= order@.subrange(0, k as int).map_values(|q: usize| idx@[q as int]));
    }
    assert(order@.subrange(0, k as int) =~= order@);
    assert(r@ =~= proper_order(v));
    proof {
        assert forall|a: int, b: int| 0 <= a < b < r@.len() implies r@[a] != r@[b] by {
            assert(order@[a] != order@[b]);
        }
        assert forall|j: int| 0 <= j < v.len() && proper(#[trigger] v[j]) implies r@.contains(j as usize) by {
            let q = choose|q: int| 0 <= q < idx@.len() && idx@[q] == j as usize;
            assert(order@.contains(q as usize));
            let t = choose|t: int| 0 <= t < order@.len() && order@[t] == q as usize;
            assert(r@[t] == j as usize);
        }
        assert forall|a: int, b: int| 0 <= a < b < r@.len() implies crate::order::text_le(
            #[trigger] v[r@[a] as int].name,
            #[trigger] v[r@[b] as int].name,
        ) by {
            assert(crate::order::text_le(views(names@)[order@[a] as int], views(names@)[order@[b] as int]));
        }
    }
    r
}

/// The row of a group in the cross-group listing.
pub open spec fn plugin_row(p: PluginV, cfg: &GlobalConfig) -> Seq<char> {
    alias_or_space(p.alias) + "\t"@ + path_text(p.path, cfg.path_dir@, cfg.root_dir@, cfg.home@) + "\t"@
        + fill_simple(cfg.selector_widget_template@, p.name, p.alias, p.desc) + "\t"@ + p.name + "\t"@ + or_empty(p.desc)
}

/// The cross-group listing over the groups `ord` of `v`.
pub open spec fn plugin_table_text(ord: Seq<usize>, v: Seq<PluginV>, cfg: &GlobalConfig) -> Seq<char> {
    join_seq(ord.map_values(|k: usize| plugin_row(v[k as int], cfg)), "\n"@)
}

/// The cross-group listing, one row per group of `order`.
pub fn build_plugin_table(plugins: &Vec<Plugin>, order: &Vec<usize>, global_config: &GlobalConfig) -> (r: String)
    requires
        forall|k: int| 0 <= k < order@.len() ==> (#[trigger] order@[k]) < plugins@.len(),
    ensures
        r@ == plugin_table_text(order@, plugin_views(plugins@), global_config),
{
    let ghost v = plugin_views(plugins@);
    let mut rows: Vec<String> = Vec::new();
    let mut k: usize = 0;
    while k < order.len()
        invariant
            k <= order@.len(),
            v == plugin_views(plugins@),
            forall|q: int| 0 <= q < order@.len() ==> (#[trigger] order@[q]) < plugins@.len(),
            views(rows@) == order@.subrange(0, k as int).map_values(|q: usize| plugin_row(v[q as int], global_config)),
        decreases order@.len() - k,
    {
        let pg = &plugins[order[k]];
        assert(v[order@[k as int] as int] == pg@);
        let mut row = pg.get_alias_or_space();
        row.append("\t");
        row.append(pathbuf_to_string(pg.path.as_str(), global_config).as_str());
        row.append("\t");
        row.append(templatize_simple(pg, global_config.selector_widget_template.as_str()).as_str());
        row.append("\t");
        row.append(pg.name.as_str());
        row.append("\t");
        match &pg.desc {
            Some(d) => row.append(d.as_str()),
            None => {},
        }
        assert(row@ =~= plugin_row(pg@, global_config));
        let ghost rb = views(rows@);
        rows.push(row);
        assert(views(rows@) =~= rb.push(plugin_row(pg@, global_config)));
        k = k + 1;
        assert(views(rows@) =~= order@.subrange(0, k as int).map_values(|q: usize| plugin_row(v[q as int], global_config)));
    }
    assert(order@.subrange(0, k as int) =~= order@);
    join(&rows, "\n")
}

/// A function appears in the all-functions listing unless flagged not to be
/// listed or being a group reference.
pub open spec fn in_all_table(f: FunV) -> bool {
    !f.flags.contains(FnFlag::NA) && !f.flags.contains(FnFlag::PG)
}

/// The functions of `fs` that appear in the all-functions listing, in order.
pub open spec fn all_table_fns(fs: Seq<FunV>) -> Seq<FunV>
    decreases fs.len(),
{
    if fs.len() == 0 {
        fs
    } else if in_all_table(fs.last()) {
        all_table_fns(fs.drop_last()).push(fs.last())
    } else {
        all_table_fns(fs.drop_last())
    }
}

/// The all-functions row of `f` in group `p`.
pub open spec fn all_row(f: FunV, p: PluginV, cfg: &GlobalConfig) -> Seq<char> {
    templatized(Some(f), p, cfg.all_fn_table_template@, cfg.selector_widget_template@, cfg.fn_template@, false, false)
}

/// The all-functions rows of one group, in ascending order of function name.
pub open spec fn all_rows_of(fs: Seq<FunV>, p: PluginV, cfg: &GlobalConfig) -> Seq<Seq<char>> {
    let a = all_table_fns(fs);
    sort_spec(fun_names(a), a.len()).map_values(|k: usize| all_row(a[k as int], p, cfg))
}

fn all_table_indices(fns: &Vec<Fun>) -> (r: (Vec<usize>, Vec<String>))
    ensures
        r.0@.len() == all_table_fns(fun_views(fns@)).len(),
        r.1@.len() == r.0@.len(),
        forall|k: int| 0 <= k < r.0@.len() ==> (#[trigger] r.0@[k]) < fns@.len()
            && fns@[r.0@[k] as int]@ == all_table_fns(fun_views(fns@))[k],
        views(r.1@) == fun_names(all_table_fns(fun_views(fns@))),
{
    let mut idx: Vec<usize> = Vec::new();
    let mut names: Vec<String> = Vec::new();
    let mut i: usize = 0;
    assert(fun_views(fns@).subrange(0, 0) =~= Seq::<FunV>::empty());
    while i < fns.len()
        invariant
            i <= fns@.len(),
            idx@.len() == all_table_fns(fun_views(fns@).subrange(0, i as int)).len(),
            names@.len() == idx@.len(),
            forall|k: int| 0 <= k < idx@.len() ==> (#[trigger] idx@[k]) < fns@.len()
                && fns@[idx@[k] as int]@ == all_table_fns(fun_views(fns@).subrange(0, i as int))[k],
            views(names@) == fun_names(all_table_fns(fun_views(fns@).subrange(0, i as int))),
        decreases fns@.len() - i,
    {
        assert(fun_views(fns@).subrange(0, i + 1).drop_last() =~= fun_views(fns@).subrange(0, i as int));
        assert(fun_views(fns@).subrange(0, i + 1).last() == fns@[i as int]@);
        let ghost nb = names@;
        if !fns[i].flags.contains(FnFlag::NA) && !fns[i].flags.contains(FnFlag::PG) {
            idx.push(i);
            names.push(fns[i].name.clone());
            assert(views(names@) =~= views(nb).push(fns@[i as int]@.name));
            assert(views(names@) =~= fun_names(all_table_fns(fun_views(fns@).subrange(0, i + 1))));
        }
        i = i + 1;
    }
    assert(fun_views(fns@).subrange(0, fns@.len() as int) =~= fun_views(fns@));
    (idx, names)
}

fn add_all_rows(rows: &mut Vec<String>, pg: &Plugin, global_config: &GlobalConfig)
    ensures
        views(final(rows)@) == views(old(rows)@) + all_rows_of(pg@.fns, pg@, global_config),
{
    let ghost a = all_table_fns(pg@.fns);
    let ghost r0 = views(rows@);
    let (idx, names) = all_table_indices(&pg.fns);
    let order = sort_order(&names);
    let ghost target = all_rows_of(pg@.fns, pg@, global_config);
    let mut k: usize = 0;
    assert(r0 + target.subrange(0, 0) =~= r0);
    while k < order.len()
        invariant
            k <= order@.len(),
            a == all_table_fns(pg@.fns),
            is_perm(order@, a.len()),
            order@ == sort_spec(fun_names(a), a.len()),
            target == all_rows_of(pg@.fns, pg@, global_config),
            idx@.len() == a.len(),
            forall|q: int| 0 <= q < idx@.len() ==> (#[trigger] idx@[q]) < pg.fns@.len()
                && pg.fns@[idx@[q] as int]@ == a[q],
            views(rows@) == r0 + target.subrange(0, k as int),
        decreases order@.len() - k,
    {
        let j = idx[order[k]];
        let row = templatize(Some(&pg.fns[j]), pg, global_config.all_fn_table_template.as_str(), global_config, false, false);
        let ghost rb = views(rows@);
        push_line(rows, row);
        assert(target[k as int] == all_row(a[order@[k as int] as int], pg@, global_config));
        k = k + 1;
        assert(views(rows@) =~= r0 + target.subrange(0, k as int));
    }
    assert(target.subrange(0, k as int) =~= target);
}

/// The all-functions rows of the groups `ord` of `v`.
pub open spec fn all_rows(ord: Seq<usize>, v: Seq<PluginV>, cfg: &GlobalConfig) -> Seq<Seq<char>>
    decreases ord.len(),
{
    if ord.len() == 0 {
        Seq::empty()
    } else {
        all_rows(ord.drop_last(), v, cfg) + all_rows_of(v[ord.last() as int].fns, v[ord.last() as int], cfg)
    }
}

/// The listing of every function of the groups of `order`.
pub fn build_all_fn_table(plugins: &Vec<Plugin>, order: &Vec<usize>, global_config: &GlobalConfig) -> (r: String)
    requires
        forall|k: int| 0 <= k < order@.len() ==> (#[trigger] order@[k]) < plugins@.len(),
    ensures
        r@ == join_seq(all_rows(order@, plugin_views(plugins@), global_config), "\n"@),
{
    let ghost v = plugin_views(plugins@);
    let mut rows: Vec<String> = Vec::new();
    let mut k: usize = 0;
    assert(order@.subrange(0, 0) =~= Seq::<usize>::empty());
    while k < order.len()
        invariant
            k <= order@.len(),
            v == plugin_views(plugins@),
            forall|q: int| 0 <= q < order@.len() ==> (#[trigger] order@[q]) < plugins@.len(),
            views(rows@) == all_rows(order@.subrange(0, k as int), v, global_config),
        decreases order@.len() - k,
    {
        assert(order@.subrange(0, k + 1).drop_last() =~= order@.subrange(0, k as int));
        let pg = &plugins[order[k]];
        assert(v[order@[k as int] as int] == pg@);
        add_all_rows(&mut rows, pg, global_config);
        k = k + 1;
    }
    assert(order@.subrange(0, k as int) =~= order@);
    join(&rows, "\n")
}

/// `ss` in ascending order.
pub open spec fn sorted_texts(ss: Seq<Seq<char>>) -> Seq<Seq<char>> {
    sort_spec(ss, ss.len()).map_values(|q: usize| ss[q as int])
}

pub fn sort_strings(v: &Vec<String>) -> (r: Vec<String>)
    ensures
        views(r@) == sorted_texts(views(v@)),
{
    let order = sort_order(v);
    let mut r: Vec<String> = Vec::new();
    let mut k: usize = 0;
    while k < order.len()
        invariant
            k <= order@.len(),
            is_perm(order@, v@.len()),
            order@ == sort_spec(views(v@), v@.len()),
            views(r@) == order@.subrange(0, k as int).map_values(|q: usize| views(v@)[q as int]),
        decreases order@.len() - k,
    {
        let ghost rb = views(r@);
        r.push(v[order[k]].clone());
        assert(views(r@) =~= rb.push(views(v@)[order@[k as int] as int]));
        k = k + 1;
        assert(views(r@) =~= order@.subrange(0, k as int).map_values(|q: usize| views(v@)[q as int]));
    }
    assert(order@.subrange(0, k as int) =~= order@);
    r
}

/// The concatenation of `ss`.
pub open spec fn concat_all(ss: Seq<Seq<char>>) -> Seq<char>
    decreases ss.len(),
{
    if ss.len() == 0 {
        Seq::empty()
    } else {
        concat_all(ss.drop_last()) + ss.last()
    }
}

/// The environment line of a function declared by a shell function.
pub open spec fn env_line(f: FunV, p: PluginV, cfg: &GlobalConfig) -> Seq<Seq<char>> {
    match f.fstring {
        Some(fs) => seq![fs + "="@ + cmd_of(f, p, cfg.selector_widget_template@, cfg.fn_template@) + " \\\n"@],
        None => Seq::empty(),
    }
}

pub open spec fn env_lines(fs: Seq<FunV>, p: PluginV, cfg: &GlobalConfig) -> Seq<Seq<char>>
    decreases fs.len(),
{
    if fs.len() == 0 {
        Seq::empty()
    } else {
        env_lines(fs.drop_last(), p, cfg) + env_line(fs.last(), p, cfg)
    }
}

/// The inline variable assignments put before a group's `source` line.
pub open spec fn env_text(p: PluginV, cfg: &GlobalConfig) -> Seq<char> {
    "this="@ + effective_alias(p.name, p.alias) + " this_name="@ + p.name + " \\\n"@ + concat_all(env_lines(p.fns, p, cfg))
}

impl Plugin {
    /// The group's inline variable assignments: `this`, `this_name`, and one
    /// per function declared by a shell function, bound to its invocation.
    pub fn env_contents(&self, global_config: &GlobalConfig) -> (r: String)
        ensures
            r@ == env_text(self@, global_config),
    {
        let mut r = cat("this=", self.get_alias().as_str());
        r.append(" this_name=");
        r.append(self.name.as_str());
        r.append(" \\\n");
        let ghost r0 = r@;
        let mut i: usize = 0;
        assert(self@.fns.subrange(0, 0) =~= Seq::<FunV>::empty());
        assert(r@ =~= r0 + concat_all(env_lines(self@.fns.subrange(0, 0), self@, global_config)));
        while i < self.fns.len()
            invariant
                i <= self.fns@.len(),
                r@ == r0 + concat_all(env_lines(self@.fns.subrange(0, i as int), self@, global_config)),
            decreases self.fns@.len() - i,
        {
            assert(self@.fns.subrange(0, i + 1).drop_last() =~= self@.fns.subrange(0, i as int));
            assert(self@.fns.subrange(0, i + 1).last() == self.fns@[i as int]@);
            let f = &self.fns[i];
            let ghost before = env_lines(self@.fns.subrange(0, i as int), self@, global_config);
            if let Some(fs) = &f.fstring {
                let ghost rb = r@;
                r.append(fs.as_str());
                r.append("=");
                r.append(f.get_cmd(self, global_config).as_str());
                r.append(" \\\n");
                let ghost line = env_line(f@, self@, global_config)[0];
                assert(r@ =~= rb + line);
                assert(concat_all(before + seq![line]) =~= concat_all(before) + line) by {
                    assert((before + seq![line]).drop_last() =~= before);
                }
            } else {
                assert(before + Seq::<Seq<char>>::empty() =~= before);
            }
            i = i + 1;
        }
        assert(self@.fns.subrange(0, i as int) =~= self@.fns);
        r
    }
}

/// The source texts of a group, quoted, as written into the init document.
pub open spec fn quoted_sources(p: PluginV, cfg: &GlobalConfig) -> Seq<Seq<char>> {
    p.sources.map_values(|s: Seq<char>| "\""@ + path_text(s, cfg.path_dir@, cfg.root_dir@, cfg.home@) + "\""@)
}

/// The `source` block of a group: nothing without sources, a single
/// `source` for one, the concatenation of several through `cat`.
pub open spec fn source_block(p: PluginV, cfg: &GlobalConfig) -> Seq<char> {
    let ss = sorted_texts(quoted_sources(p, cfg));
    if ss.len() == 0 {
        Seq::empty()
    } else if ss.len() > 1 {
        "\n"@ + env_text(p, cfg) + "source <(cat "@ + join_seq(ss, " "@) + ")\n"@
    } else {
        "\n"@ + env_text(p, cfg) + "source "@ + ss[0] + "\n"@
    }
}

pub open spec fn source_blocks(v: Seq<PluginV>, cfg: &GlobalConfig) -> Seq<char>
    decreases v.len(),
{
    if v.len() == 0 {
        Seq::empty()
    } else {
        source_blocks(v.drop_last(), cfg) + source_block(v.last(), cfg)
    }
}

/// The source lines of all groups, then the helper that names the calling group.
pub open spec fn source_commands(v: Seq<PluginV>, cfg: &GlobalConfig) -> Seq<char> {
    source_blocks(v, cfg) + "this(){echo ${${funcstack[2]}%%.*};}\n"@
}

fn source_block_of(p: &Plugin, global_config: &GlobalConfig) -> (r: String)
    ensures
        r@ == source_block(p@, global_config),
{
    let mut quoted: Vec<String> = Vec::new();
    let mut i: usize = 0;
    while i < p.sources.len()
        invariant
            i <= p.sources@.len(),
            views(quoted@) == quoted_sources(p@, global_config).subrange(0, i as int),
        decreases p.sources@.len() - i,
    {
        let mut q = cat("\"", pathbuf_to_string(p.sources[i].as_str(), global_config).as_str());
        q.append("\"");
        push_line(&mut quoted, q);
        i = i + 1;
        assert(views(quoted@) =~= quoted_sources(p@, global_config).subrange(0, i as int));
    }
    assert(quoted_sources(p@, global_config).subrange(0, i as int) =~= quoted_sources(p@, global_config));
    let ss = sort_strings(&quoted);
    if ss.len() == 0 {
        String::new()
    } else if ss.len() > 1 {
        let mut r = cat("\n", p.env_contents(global_config).as_str());
        r.append("source <(cat ");
        r.append(join(&ss, " ").as_str());
        r.append(")\n");
        r
    } else {
        let mut r = cat("\n", p.env_contents(global_config).as_str());
        r.append("source ");
        r.append(ss[0].as_str());
        r.append("\n");
        assert(views(ss@)[0] == ss@[0]@);
        r
    }
}

/// The source lines of the groups, in order.
pub fn build_source_commands(plugins: &Vec<Plugin>, global_config: &GlobalConfig) -> (r: String)
    ensures
        r@ == source_commands(plugin_views(plugins@), global_config),
{
    let ghost v = plugin_views(plugins@);
    let mut r = String::new();
    let mut i: usize = 0;
    assert(v.subrange(0, 0) =~= Seq::<PluginV>::empty());
    while i < plugins.len()
        invariant
            i <= plugins@.len(),
            v == plugin_views(plugins@),
            r@ == source_blocks(v.subrange(0, i as int), global_config),
        decreases plugins@.len() - i,
    {
        assert(v.subrange(0, i + 1).drop_last() =~= v.subrange(0, i as int));
        assert(v.subrange(0, i + 1).last() == plugins@[i as int]@);
        r.append(source_block_of(&plugins[i], global_config).as_str());
        i = i + 1;
    }
    assert(v.subrange(0, i as int) =~= v);
    r.append("this(){echo ${${funcstack[2]}%%.*};}\n");
    r
}

/// A placeholder name in braces.
pub open spec fn braced(k: Seq<char>) -> Seq<char> {
    "{{ "@ + k + " }}"@
}

/// The placeholders that the global configuration fills in every document.
pub open spec fn config_key_names(cfg: &GlobalConfig) -> Seq<Seq<char>> {
    seq!["fzs_name"@, "fzs_root_dir"@, "fzs_path_dir"@, "fzs_data_dir"@, "fzs_config_dir"@,
        "fzs_provides_file"@, "fzs_fzf_dir_cmd"@, "fzs_fzf_pager_cmd"@, "fzs_init_file"@,
        "fzs_fzf_base_preview"@] + if is_absolute(cfg.generated_file@) {
        seq!["fzs_plugins_file"@]
    } else {
        Seq::empty()
    }
}

/// What the global placeholders stand for.
pub open spec fn config_key_values(cfg: &GlobalConfig) -> Seq<Seq<char>> {
    let pt = |x: Seq<char>| path_text(x, cfg.path_dir@, cfg.root_dir@, cfg.home@);
    let home = |x: Seq<char>| rep_if(x, cfg.home@, "$HOME"@);
    seq![cfg.fzs_name@, home(cfg.root_dir@), home(cfg.path_dir@), home(cfg.data_dir@), home(cfg.config_dir@),
        pt(cfg.provides_file@), cfg.fzs_fzf_dir_cmd@, cfg.fzs_fzf_pager_cmd@, pt(cfg.init_file@),
        cfg.fzs_fzf_base_preview@] + if is_absolute(cfg.generated_file@) {
        seq![pt(cfg.generated_file@)]
    } else {
        Seq::empty()
    }
}

/// `contents` with the placeholders `names` (given without braces) and the
/// global ones filled in, in one pass.
pub open spec fn contents_filled(contents: Seq<char>, names: Seq<Seq<char>>, values: Seq<Seq<char>>, cfg: &GlobalConfig) -> Seq<char> {
    subst(contents, (names + config_key_names(cfg)).map_values(|k: Seq<char>| braced(k)), values + config_key_values(cfg))
}

fn push_braced(keys: &mut Vec<String>, k: &str)
    requires
        forall|j: int| 0 <= j < old(keys)@.len() ==> (#[trigger] old(keys)@[j])@.len() > 0,
    ensures
        views(final(keys)@) == views(old(keys)@).push(braced(k@)),
        forall|j: int| 0 <= j < final(keys)@.len() ==> (#[trigger] final(keys)@[j])@.len() > 0,
{
    proof {
        reveal_strlit("{{ ");
    }
    let b = cat(&cat("{{ ", k), " }}");
    keys.push(b);
    assert(views(keys@) =~= views(old(keys)@).push(braced(k@)));
}

/// Fills the given placeholders and the global ones into `contents`.
pub fn templatize_contents(
    contents: &str,
    global_config: &GlobalConfig,
    names: &Vec<String>,
    values: &Vec<String>,
) -> (r: String)
    requires
        names@.len() == values@.len(),
    ensures
        r@ == contents_filled(contents@, views(names@), views(values@), global_config),
{
    let mut keys: Vec<String> = Vec::new();
    let mut vals: Vec<String> = Vec::new();
    let mut i: usize = 0;
    while i < names.len()
        invariant
            i <= names@.len(),
            names@.len() == values@.len(),
            views(keys@) == views(names@).subrange(0, i as int).map_values(|k: Seq<char>| braced(k)),
            views(vals@) == views(values@).subrange(0, i as int),
            forall|j: int| 0 <= j < keys@.len() ==> (#[trigger] keys@[j])@.len() > 0,
        decreases names@.len() - i,
    {
        push_braced(&mut keys, names[i].as_str());
        push_line(&mut vals, values[i].clone());
        i = i + 1;
        assert(views(keys@) =~= views(names@).subrange(0, i as int).map_values(|k: Seq<char>| braced(k)));
        assert(views(vals@) =~= views(values@).subrange(0, i as int));
    }
    push_braced(&mut keys, "fzs_name");
    push_line(&mut vals, global_config.fzs_name.clone());
    push_braced(&mut keys, "fzs_root_dir");
    push_line(&mut vals, pathbuf_to_string_basic(global_config.root_dir.as_str(), global_config));
    push_braced(&mut keys, "fzs_path_dir");
    push_line(&mut vals, pathbuf_to_string_basic(global_config.path_dir.as_str(), global_config));
    push_braced(&mut keys, "fzs_data_dir");
    push_line(&mut vals, pathbuf_to_string_basic(global_config.data_dir.as_str(), global_config));
    push_braced(&mut keys, "fzs_config_dir");
    push_line(&mut vals, pathbuf_to_string_basic(global_config.config_dir.as_str(), global_config));
    push_braced(&mut keys, "fzs_provides_file");
    push_line(&mut vals, pathbuf_to_string(global_config.provides_file.as_str(), global_config));
    push_braced(&mut keys, "fzs_fzf_dir_cmd");
    push_line(&mut vals, global_config.fzs_fzf_dir_cmd.clone());
    push_braced(&mut keys, "fzs_fzf_pager_cmd");
    push_line(&mut vals, global_config.fzs_fzf_pager_cmd.clone());
    push_braced(&mut keys, "fzs_init_file");
    push_line(&mut vals, pathbuf_to_string(global_config.init_file.as_str(), global_config));
    push_braced(&mut keys, "fzs_fzf_base_preview");
    push_line(&mut vals, global_config.fzs_fzf_base_preview.clone());
    if path_is_absolute(global_config.generated_file.as_str()) {
        push_braced(&mut keys, "fzs_plugins_file");
        push_line(&mut vals, pathbuf_to_string(global_config.generated_file.as_str(), global_config));
    }
    assert(views(names@).subrange(0, i as int) =~= views(names@));
    assert(views(values@).subrange(0, i as int) =~= views(values@));
    assert(views(keys@) =~= (views(names@) + config_key_names(global_config)).map_values(|k: Seq<char>| braced(k)));
    assert(views(vals@) =~= views(values@) + config_key_values(global_config));
    substitute(contents, &keys, &vals)
}

/// The binding lines of a built-in selector menu.
pub open spec fn selector_bind_lines(kbs: Seq<Seq<char>>, target: Seq<char>) -> Seq<char> {
    concat_all(kbs.map_values(|kb: Seq<char>| bind_line(kb, target) + "\n"@))
}

fn add_selector_binds(r: &mut String, kbs: &Vec<String>, target: &str)
    ensures
        final(r)@ == old(r)@ + selector_bind_lines(views(kbs@), target@),
{
    let ghost r0 = r@;
    let mut i: usize = 0;
    assert(views(kbs@).subrange(0, 0).map_values(|kb: Seq<char>| bind_line(kb, target@) + "\n"@) =~= Seq::<Seq<char>>::empty());
    while i < kbs.len()
        invariant
            i <= kbs@.len(),
            r@ == r0 + selector_bind_lines(views(kbs@).subrange(0, i as int), target@),
        decreases kbs@.len() - i,
    {
        let ghost prev = views(kbs@).subrange(0, i as int).map_values(|kb: Seq<char>| bind_line(kb, target@) + "\n"@);
        r.append(bind_line_of(kbs[i].as_str(), target).as_str());
        r.append("\n");
        let ghost next = views(kbs@).subrange(0, i + 1).map_values(|kb: Seq<char>| bind_line(kb, target@) + "\n"@);
        assert(next.drop_last() =~= prev);
        assert(next.last() == bind_line(kbs@[i as int]@, target@) + "\n"@);
        i = i + 1;
    }
    assert(views(kbs@).subrange(0, i as int) =~= views(kbs@));
}

/// The global initialization document: the template with the cross-group
/// and all-functions listings (proper groups, by name) and the global
/// placeholders filled in, the key bindings of the two selector menus, and
/// the source lines of every group.
pub open spec fn init_text(template: Seq<char>, v: Seq<PluginV>, cfg: &GlobalConfig) -> Seq<char> {
    let ord = proper_order(v);
    contents_filled(
        template,
        seq!["fn_table"@, "all_fn_table"@],
        seq![plugin_table_text(ord, v, cfg), join_seq(all_rows(ord, v, cfg), "\n"@)],
        cfg,
    ) + selector_bind_lines(views(cfg.plugin_selector_binds@), cfg.fzs_name@ + ".plugin-select.wg"@)
      + selector_bind_lines(views(cfg.all_fn_selector_binds@), cfg.fzs_name@ + ".all-fn-select.wg"@)
      + source_commands(v, cfg)
}

/// Builds the global initialization document from its template.
pub fn init_file_contents(template: &str, plugins: &Vec<Plugin>, global_config: &GlobalConfig) -> (r: String)
    ensures
        r@ == init_text(template@, plugin_views(plugins@), global_config),
{
    let ord = sorted_proper(plugins);
    let t1 = build_plugin_table(plugins, &ord, global_config);
    let t2 = build_all_fn_table(plugins, &ord, global_config);
    let mut names: Vec<String> = Vec::new();
    push_line(&mut names, String::from_str("fn_table"));
    push_line(&mut names, String::from_str("all_fn_table"));
    let mut values: Vec<String> = Vec::new();
    let ghost t1v = t1@;
    let ghost t2v = t2@;
    push_line(&mut values, t1);
    push_line(&mut values, t2);
    assert(views(values@) =~= seq![t1v, t2v]);
    assert(views(names@) =~= seq!["fn_table"@, "all_fn_table"@]);
    assert(names@.len() == views(names@).len() && values@.len() == views(values@).len());
    let mut r = templatize_contents(template, global_config, &names, &values);
    add_selector_binds(&mut r, &global_config.plugin_selector_binds, cat(global_config.fzs_name.as_str(), ".plugin-select.wg").as_str());
    add_selector_binds(&mut r, &global_config.all_fn_selector_binds, cat(global_config.fzs_name.as_str(), ".all-fn-select.wg").as_str());
    r.append(build_source_commands(plugins, global_config).as_str());
    assert(r@ =~= init_text(template@, plugin_views(plugins@), global_config));
    r
}

/// The listing of a group as its text, where any function is listed.
pub open spec fn fn_table_text(p: PluginV, cfg: &GlobalConfig) -> Seq<char> {
    let fs = listed_fns(p.fns);
    join_seq(rows_in(sort_spec(fun_names(fs), fs.len()), fs, p, cfg), "\n"@)
}

/// A group's generated file: the group template with its listing filled in
/// (where any function is listed), then the extras block under a heading.
pub open spec fn generated_text(template: Seq<char>, p: PluginV, cfg: &GlobalConfig) -> Seq<char> {
    let head = if listed_fns(p.fns).len() == 0 {
        Seq::empty()
    } else {
        contents_filled(
            template,
            seq!["fn_table"@, "selector_name"@],
            seq![fn_table_text(p, cfg), fill_simple(cfg.selector_widget_template@, p.name, p.alias, p.desc)],
            cfg,
        )
    };
    let ex = extra_lines(p, cfg);
    if ex.len() == 0 {
        head
    } else {
        head + "\n### ALIASES AND BINDS\n"@ + join_seq(ex.push("\n"@), "\n"@)
    }
}

impl Plugin {
    /// The text of the group's generated file.
    pub fn generated_contents(&self, template: &str, global_config: &GlobalConfig) -> (r: String)
        ensures
            r@ == generated_text(template@, self@, global_config),
    {
        let mut contents = String::new();
        if let Some(t) = self.fn_table(global_config) {
            let mut names: Vec<String> = Vec::new();
            push_line(&mut names, String::from_str("fn_table"));
            push_line(&mut names, String::from_str("selector_name"));
            let mut values: Vec<String> = Vec::new();
            let ghost tv = t@;
            let sel = templatize_simple(self, global_config.selector_widget_template.as_str());
            let ghost sv = sel@;
            push_line(&mut values, t);
            push_line(&mut values, sel);
            assert(views(values@) =~= seq![tv, sv]);
            assert(views(names@) =~= seq!["fn_table"@, "selector_name"@]);
            assert(names@.len() == views(names@).len() && values@.len() == views(values@).len());
            contents = templatize_contents(template, global_config, &names, &values);
        }
        let ghost head = contents@;
        if let Some(e) = self.extra_table(global_config) {
            contents.append("\n### ALIASES AND BINDS\n");
            contents.append(e.as_str());
            assert(contents@ =~= head + "\n### ALIASES AND BINDS\n"@ + e@);
        }
        contents
    }
}

/// The lines of a group's "provides" environment file, if any function is
/// declared by a shell function.
pub open spec fn env_file_text(p: PluginV, cfg: &GlobalConfig) -> Option<Seq<char>> {
    let ls = env_file_lines(p.fns, p, cfg);
    if ls.len() == 0 {
        None
    } else {
        Some("this="@ + effective_alias(p.name, p.alias) + "\n"@ + "this_name="@ + p.name + "\n"@ + concat_all(ls))
    }
}

pub open spec fn env_file_lines(fs: Seq<FunV>, p: PluginV, cfg: &GlobalConfig) -> Seq<Seq<char>>
    decreases fs.len(),
{
    if fs.len() == 0 {
        Seq::empty()
    } else {
        env_file_lines(fs.drop_last(), p, cfg) + match fs.last().fstring {
            Some(x) => seq![x + "="@ + cmd_of(fs.last(), p, cfg.selector_widget_template@, cfg.fn_template@) + "\n"@],
            None => Seq::<Seq<char>>::empty(),
        }
    }
}

impl Plugin {
    /// The text of the group's "provides" environment file.
    pub fn env_file_contents(&self, global_config: &GlobalConfig) -> (r: Option<String>)
        ensures
            opt_view(r) == env_file_text(self@, global_config),
    {
        let mut body = String::new();
        let mut n: usize = 0;
        let mut i: usize = 0;
        assert(self@.fns.subrange(0, 0) =~= Seq::<FunV>::empty());
        while i < self.fns.len()
            invariant
                i <= self.fns@.len(),
                body@ == concat_all(env_file_lines(self@.fns.subrange(0, i as int), self@, global_config)),
                n == env_file_lines(self@.fns.subrange(0, i as int), self@, global_config).len(),
                n <= i,
            decreases self.fns@.len() - i,
        {
            assert(self@.fns.subrange(0, i + 1).drop_last() =~= self@.fns.subrange(0, i as int));
            assert(self@.fns.subrange(0, i + 1).last() == self.fns@[i as int]@);
            let f = &self.fns[i];
            let ghost before = env_file_lines(self@.fns.subrange(0, i as int), self@, global_config);
            if let Some(fs) = &f.fstring {
                let ghost bb = body@;
                body.append(fs.as_str());
                body.append("=");
                body.append(f.get_cmd(self, global_config).as_str());
                body.append("\n");
                let ghost line = fs@ + "="@ + cmd_of(f@, self@, global_config.selector_widget_template@, global_config.fn_template@) + "\n"@;
                assert(body@ =~= bb + line);
                assert((before + seq![line]).drop_last() =~= before);
                n = n + 1;
            } else {
                assert(before + Seq::<Seq<char>>::empty() =~= before);
            }
            i = i + 1;
        }
        assert(self@.fns.subrange(0, i as int) =~= self@.fns);
        if n == 0 {
            None
        } else {
            let mut r = cat("this=", self.get_alias().as_str());
            r.append("\n");
            r.append("this_name=");
            r.append(self.name.as_str());
            r.append("\n");
            r.append(body.as_str());
            Some(r)
        }
    }
}

} // verus!
