//! Settings overrides, include flattening and the resolution of group
//! references.
use vstd::prelude::*;
use crate::flags::FnFlag;
use crate::group::{find_plugin, plugin_index, plugin_names, plugin_views};
use crate::model::{
    ErrV, Fun, FunV, Initial, Plugin, PluginV, ScanningError, check_rejects, checked, effective_alias,
    copy_result, err_view, find_fun, first_named, fun_names, fun_views, insert_result, merged,
    whitespace_message,
};
use crate::pattern::opt_view;
use crate::text::{cat, views};

verus! {

/// A group as the settings document declares it.
#[derive(Debug)]
pub struct RawPlugin {
    pub name: String,
    pub desc: Option<String>,
    pub alias: Option<String>,
    pub fns: Vec<Fun>,
    pub fn_template: Option<String>,
    pub binds: Vec<String>,
}

/// One function of the settings document applied to a table: an existing
/// function is overridden and validated, a new one validated and added.
pub open spec fn raw_step(fns: Seq<FunV>, rf: FunV) -> Result<Seq<FunV>, ErrV> {
    let names = fun_names(fns);
    if names.contains(rf.name) {
        let k = first_named(names, rf.name);
        let m = merged(fns[k], rf);
        if check_rejects(m) { Err(ErrV::InvalidFn(whitespace_message(m.name))) } else { Ok(fns.update(k, checked(m))) }
    } else if check_rejects(rf) {
        Err(ErrV::InvalidFn(whitespace_message(rf.name)))
    } else {
        Ok(fns.push(checked(rf)))
    }
}

/// The functions of the settings document applied in order.
pub open spec fn raw_run(fns: Seq<FunV>, rfs: Seq<FunV>) -> Result<Seq<FunV>, ErrV>
    decreases rfs.len(),
{
    if rfs.len() == 0 {
        Ok(fns)
    } else {
        match raw_run(fns, rfs.drop_last()) {
            Ok(f) => raw_step(f, rfs.last()),
            Err(e) => Err(e),
        }
    }
}

proof fn lemma_raw_fails_on(fns: Seq<FunV>, rfs: Seq<FunV>, i: int)
    requires
        0 <= i <= rfs.len(),
        raw_run(fns, rfs.subrange(0, i)) is Err,
    ensures
        raw_run(fns, rfs) == raw_run(fns, rfs.subrange(0, i)),
    decreases rfs.len() - i,
{
    if i < rfs.len() {
        assert(rfs.subrange(0, i + 1).drop_last() =~= rfs.subrange(0, i));
        lemma_raw_fails_on(fns, rfs, i + 1);
    } else {
        assert(rfs.subrange(0, i) =~= rfs);
    }
}

/// Keeps `v` if set, else `old`.
pub open spec fn override_with(old: Option<Seq<char>>, v: Option<Seq<char>>) -> Option<Seq<char>> {
    if v is Some { v } else { old }
}

/// Applies one function of the settings document to a table.
fn apply_raw_fun(fns: &mut Vec<Fun>, rf: Fun) -> (r: Result<(), ScanningError>)
    ensures
        r is Ok ==> raw_step(fun_views(old(fns)@), rf@) == Ok::<Seq<FunV>, ErrV>(fun_views(final(fns)@)),
        r matches Err(e) ==> raw_step(fun_views(old(fns)@), rf@) == Err::<Seq<FunV>, ErrV>(err_view(e)),
{
    let ghost before = fun_views(fns@);
    let mut rf = rf;
    match find_fun(fns, rf.name.as_str()) {
        Some(k) => {
            let mut e = fns.remove(k);
            e.merge_from(rf);
            let res = e.check();
            let ghost ev = e@;
            fns.insert(k, e);
            assert(fun_views(fns@) =~= before.update(k as int, ev));
            res
        },
        None => {
            let res = rf.check();
            if res.is_ok() {
                let ghost fv = rf@;
                fns.push(rf);
                assert(fun_views(fns@) =~= before.push(fv));
            }
            res
        },
    }
}

impl Plugin {
    /// Applies a settings-document entry: description, alias, template and
    /// key bindings where given (an empty list of bindings counts as none),
    /// and each listed function merged into an existing one or added,
    /// validated either way.
    pub fn merge_from_raw(&mut self, raw_plugin: RawPlugin) -> (r: Result<(), ScanningError>)
        ensures
            ({
                let run = raw_run(old(self)@.fns, fun_views(raw_plugin.fns@));
                &&& r matches Err(e) ==> run == Err::<Seq<FunV>, ErrV>(err_view(e))
                &&& r is Ok ==> run is Ok && final(self)@ == (PluginV {
                    desc: override_with(old(self)@.desc, opt_view(raw_plugin.desc)),
                    alias: override_with(old(self)@.alias, opt_view(raw_plugin.alias)),
                    binds: if raw_plugin.binds@.len() > 0 { views(raw_plugin.binds@) } else { old(self)@.binds },
                    fn_template: override_with(old(self)@.fn_template, opt_view(raw_plugin.fn_template)),
                    fns: run->Ok_0,
                    ..old(self)@
                })
            }),
    {
        let RawPlugin { name: _, desc, alias, fns: raw_fns, fn_template, binds } = raw_plugin;
        if let Some(desc) = desc {
            self.desc = Some(desc);
        }
        if let Some(alias) = alias {
            self.alias = Some(alias);
        }
        if binds.len() > 0 {
            self.binds = binds;
        }
        if let Some(fn_template) = fn_template {
            self.fn_template = Some(fn_template);
        }
        let ghost rfs = fun_views(raw_fns@);
        let ghost fns0 = fun_views(self.fns@);
        let mut rest = raw_fns;
        let ghost mut i: int = 0;
        assert(rfs.subrange(0, 0) =~= Seq::<FunV>::empty());
        assert(fun_views(rest@) =~= rfs.subrange(0, rest@.len() as int));
        while rest.len() > 0
            invariant
                0 <= i <= rfs.len(),
                i + rest@.len() == rfs.len(),
                fun_views(rest@) == rfs.subrange(i as int, rfs.len() as int),
                raw_run(fns0, rfs.subrange(0, i as int)) == Ok::<Seq<FunV>, ErrV>(fun_views(self.fns@)),
                self.name@ == old(self)@.name,
                self.path@ == old(self)@.path,
                opt_view(self.desc) == override_with(old(self)@.desc, opt_view(raw_plugin.desc)),
                opt_view(self.alias) == override_with(old(self)@.alias, opt_view(raw_plugin.alias)),
                views(self.binds@) == if raw_plugin.binds@.len() > 0 { views(raw_plugin.binds@) } else { old(self)@.binds },
                opt_view(self.fn_template) == override_with(old(self)@.fn_template, opt_view(raw_plugin.fn_template)),
                opt_view(self.fn_table_template) == old(self)@.fn_table_template,
                views(self.sources@) == old(self)@.sources,
                fns0 == old(self)@.fns,
                rfs == fun_views(raw_plugin.fns@),
            decreases rest@.len(),
        {
            let ghost rest_before = rest@;
            let rf = rest.remove(0);
            assert(rfs.subrange(0, i + 1).drop_last() =~= rfs.subrange(0, i as int));
            assert(fun_views(rest_before)[0] == rest_before[0]@);
            assert(fun_views(rest_before)[0] == rfs.subrange(i as int, rfs.len() as int)[0]);
            assert(rfs[i as int] == rf@);
            assert(rest@ =~= rest_before.subrange(1, rest_before.len() as int));
            assert forall|j: int| 0 <= j < rest@.len() implies fun_views(rest@)[j] == rfs.subrange(i + 1, rfs.len() as int)[j] by {
                assert(fun_views(rest_before)[j + 1] == rfs.subrange(i as int, rfs.len() as int)[j + 1]);
            }
            assert(fun_views(rest@) =~= rfs.subrange(i + 1, rfs.len() as int));
            let res = apply_raw_fun(&mut self.fns, rf);
            if res.is_err() {
                proof {
                    lemma_raw_fails_on(fns0, rfs, i + 1);
                }
                return res;
            }
            proof {
                i = i + 1;
            }
        }
        assert(rfs.subrange(0, i as int) =~= rfs);
        Ok(())
    }
}

/// The names of the functions flagged as group includes, in order.
pub open spec fn include_names(fns: Seq<FunV>) -> Seq<Seq<char>>
    decreases fns.len(),
{
    if fns.len() == 0 {
        Seq::empty()
    } else if fns.last().flags.contains(FnFlag::PGI) {
        include_names(fns.drop_last()).push(fns.last().name)
    } else {
        include_names(fns.drop_last())
    }
}

/// The functions not flagged as group includes, in order.
pub open spec fn without_includes(fns: Seq<FunV>) -> Seq<FunV>
    decreases fns.len(),
{
    if fns.len() == 0 {
        fns
    } else if fns.last().flags.contains(FnFlag::PGI) {
        without_includes(fns.drop_last())
    } else {
        without_includes(fns.drop_last()).push(fns.last())
    }
}

/// `src` added to `fns` one by one; a taken name fails.
pub open spec fn include_all(fns: Seq<FunV>, src: Seq<FunV>, info: Seq<char>) -> Result<Seq<FunV>, ErrV>
    decreases src.len(),
{
    if src.len() == 0 {
        Ok(fns)
    } else {
        match include_all(fns, src.drop_last(), info) {
            Ok(f) => copy_result(f, src.last(), info),
            Err(e) => Err(e),
        }
    }
}

/// The groups named in `names` included in turn; unknown names are skipped.
pub open spec fn includes_run(fns: Seq<FunV>, names: Seq<Seq<char>>, groups: Seq<PluginV>, owner: Seq<char>) -> Result<Seq<FunV>, ErrV>
    decreases names.len(),
{
    if names.len() == 0 {
        Ok(fns)
    } else {
        match includes_run(fns, names.drop_last(), groups, owner) {
            Ok(f) => if plugin_names(groups).contains(names.last()) {
                include_all(f, groups[plugin_index(groups, names.last())].fns, include_info(names.last(), owner))
            } else {
                Ok(f)
            },
            Err(e) => Err(e),
        }
    }
}

/// The origin given for the functions copied from group `name` into `owner`.
pub open spec fn include_info(name: Seq<char>, owner: Seq<char>) -> Seq<char> {
    "Attempted to include "@ + name + " into "@ + owner
}

/// The table of group `owner` after include flattening.
pub open spec fn flattened(fns: Seq<FunV>, groups: Seq<PluginV>, owner: Seq<char>) -> Result<Seq<FunV>, ErrV> {
    includes_run(without_includes(fns), include_names(fns), groups, owner)
}

fn split_includes(fns: &Vec<Fun>) -> (r: (Vec<Fun>, Vec<String>))
    ensures
        fun_views(r.0@) == without_includes(fun_views(fns@)),
        views(r.1@) == include_names(fun_views(fns@)),
{
    let mut kept: Vec<Fun> = Vec::new();
    let mut names: Vec<String> = Vec::new();
    let mut i: usize = 0;
    assert(fun_views(fns@).subrange(0, 0) =~= Seq::<FunV>::empty());
    while i < fns.len()
        invariant
            i <= fns@.len(),
            fun_views(kept@) == without_includes(fun_views(fns@).subrange(0, i as int)),
            views(names@) == include_names(fun_views(fns@).subrange(0, i as int)),
        decreases fns@.len() - i,
    {
        assert(fun_views(fns@).subrange(0, i + 1).drop_last() =~= fun_views(fns@).subrange(0, i as int));
        assert(fun_views(fns@).subrange(0, i + 1).last() == fns@[i as int]@);
        let ghost kb = kept@;
        let ghost nb = names@;
        if fns[i].flags.contains(FnFlag::PGI) {
            names.push(fns[i].name.clone());
            assert(views(names@) =~= views(nb).push(fns@[i as int]@.name));
        } else {
            kept.push(fns[i].duplicate());
            assert(fun_views(kept@) =~= fun_views(kb).push(fns@[i as int]@));
        }
        i = i + 1;
    }
    assert(fun_views(fns@).subrange(0, fns@.len() as int) =~= fun_views(fns@));
    (kept, names)
}

fn include_into(fns: &mut Vec<Fun>, src: &Vec<Fun>, info: &str) -> (r: Result<(), ScanningError>)
    ensures
        r is Ok ==> include_all(fun_views(old(fns)@), fun_views(src@), info@) == Ok::<Seq<FunV>, ErrV>(fun_views(final(fns)@)),
        r matches Err(e) ==> include_all(fun_views(old(fns)@), fun_views(src@), info@) == Err::<Seq<FunV>, ErrV>(err_view(e)),
{
    let ghost f0 = fun_views(fns@);
    let mut i: usize = 0;
    assert(fun_views(src@).subrange(0, 0) =~= Seq::<FunV>::empty());
    while i < src.len()
        invariant
            i <= src@.len(),
            f0 == fun_views(old(fns)@),
            include_all(f0, fun_views(src@).subrange(0, i as int), info@) == Ok::<Seq<FunV>, ErrV>(fun_views(fns@)),
        decreases src@.len() - i,
    {
        assert(fun_views(src@).subrange(0, i + 1).drop_last() =~= fun_views(src@).subrange(0, i as int));
        assert(fun_views(src@).subrange(0, i + 1).last() == src@[i as int]@);
        let res = crate::model::insert_copy(fns, src[i].duplicate(), info);
        if res.is_err() {
            proof {
                lemma_include_all_fails(f0, fun_views(src@), i as int + 1, info@);
            }
            return res;
        }
        i = i + 1;
    }
    assert(fun_views(src@).subrange(0, src@.len() as int) =~= fun_views(src@));
    Ok(())
}

proof fn lemma_include_all_fails(fns: Seq<FunV>, src: Seq<FunV>, i: int, info: Seq<char>)
    requires
        0 <= i <= src.len(),
        include_all(fns, src.subrange(0, i), info) is Err,
    ensures
        include_all(fns, src, info) == include_all(fns, src.subrange(0, i), info),
    decreases src.len() - i,
{
    if i < src.len() {
        assert(src.subrange(0, i + 1).drop_last() =~= src.subrange(0, i));
        lemma_include_all_fails(fns, src, i + 1, info);
    } else {
        assert(src.subrange(0, i) =~= src);
    }
}

proof fn lemma_includes_fails(fns: Seq<FunV>, names: Seq<Seq<char>>, groups: Seq<PluginV>, i: int, owner: Seq<char>)
    requires
        0 <= i <= names.len(),
        includes_run(fns, names.subrange(0, i), groups, owner) is Err,
    ensures
        includes_run(fns, names, groups, owner) == includes_run(fns, names.subrange(0, i), groups, owner),
    decreases names.len() - i,
{
    if i < names.len() {
        assert(names.subrange(0, i + 1).drop_last() =~= names.subrange(0, i));
        lemma_includes_fails(fns, names, groups, i + 1, owner);
    } else {
        assert(names.subrange(0, i) =~= names);
    }
}

impl Plugin {
    /// Include flattening: the functions flagged as group includes are
    /// removed and the functions of each named group copied in as they are;
    /// a name that is already taken fails, an unknown group is skipped.
    /// Nothing changes on error.
    pub fn map_includes(&mut self, plugins: &Vec<Plugin>) -> (r: Result<(), ScanningError>)
        ensures
            ({
                let run = flattened(old(self)@.fns, plugin_views(plugins@), old(self)@.name);
                &&& r is Ok ==> run is Ok && final(self)@ == (PluginV { fns: run->Ok_0, ..old(self)@ })
                &&& r matches Err(e) ==> run == Err::<Seq<FunV>, ErrV>(err_view(e))
                &&& r is Err ==> final(self)@ == old(self)@
            }),
    {
        let ghost groups = plugin_views(plugins@);
        let (mut fns, names) = split_includes(&self.fns);
        let ghost f0 = fun_views(fns@);
        let mut i: usize = 0;
        assert(views(names@).subrange(0, 0) =~= Seq::<Seq<char>>::empty());
        while i < names.len()
            invariant
                i <= names@.len(),
                groups == plugin_views(plugins@),
                f0 == without_includes(old(self)@.fns),
                views(names@) == include_names(old(self)@.fns),
                *self == *old(self),
                includes_run(f0, views(names@).subrange(0, i as int), groups, old(self)@.name) == Ok::<Seq<FunV>, ErrV>(fun_views(fns@)),
            decreases names@.len() - i,
        {
            assert(views(names@).subrange(0, i + 1).drop_last() =~= views(names@).subrange(0, i as int));
            assert(views(names@).subrange(0, i + 1).last() == names@[i as int]@);
            match find_plugin(plugins, names[i].as_str()) {
                Some(k) => {
                    assert(groups[k as int] == plugins@[k as int]@);
                    let info = cat(&cat(&cat("Attempted to include ", names[i].as_str()), " into "), self.name.as_str());
                    let res = include_into(&mut fns, &plugins[k].fns, info.as_str());
                    if res.is_err() {
                        proof {
                            lemma_includes_fails(f0, views(names@), groups, i as int + 1, old(self)@.name);
                        }
                        return res;
                    }
                },
                None => {},
            }
            i = i + 1;
        }
        assert(views(names@).subrange(0, names@.len() as int) =~= views(names@));
        self.fns = fns;
        Ok(())
    }
}

/// No function of `fns` is flagged as a group include.
pub open spec fn no_includes(fns: Seq<FunV>) -> bool {
    forall|i: int| 0 <= i < fns.len() ==> !(#[trigger] fns[i]).flags.contains(FnFlag::PGI)
}

proof fn lemma_no_includes_fixed(fns: Seq<FunV>)
    requires
        no_includes(fns),
    ensures
        without_includes(fns) == fns,
        include_names(fns) == Seq::<Seq<char>>::empty(),
    decreases fns.len(),
{
    if fns.len() > 0 {
        assert(!fns[fns.len() - 1].flags.contains(FnFlag::PGI));
        assert(no_includes(fns.drop_last()));
        lemma_no_includes_fixed(fns.drop_last());
        assert(fns.drop_last().push(fns.last()) =~= fns);
    }
}

proof fn lemma_without_includes_clean(fns: Seq<FunV>)
    ensures
        no_includes(without_includes(fns)),
    decreases fns.len(),
{
    if fns.len() > 0 {
        lemma_without_includes_clean(fns.drop_last());
    }
}

proof fn lemma_include_all_clean(fns: Seq<FunV>, src: Seq<FunV>, info: Seq<char>)
    requires
        no_includes(fns),
        no_includes(src),
        include_all(fns, src, info) is Ok,
    ensures
        no_includes(include_all(fns, src, info)->Ok_0),
    decreases src.len(),
{
    if src.len() > 0 {
        assert(no_includes(src.drop_last()));
        lemma_include_all_clean(fns, src.drop_last(), info);
        assert(!src[src.len() - 1].flags.contains(FnFlag::PGI));
    }
}

proof fn lemma_includes_clean(fns: Seq<FunV>, names: Seq<Seq<char>>, groups: Seq<PluginV>, owner: Seq<char>)
    requires
        no_includes(fns),
        forall|g: int| 0 <= g < groups.len() ==> no_includes(#[trigger] groups[g].fns),
        includes_run(fns, names, groups, owner) is Ok,
    ensures
        no_includes(includes_run(fns, names, groups, owner)->Ok_0),
    decreases names.len(),
{
    if names.len() > 0 {
        lemma_includes_clean(fns, names.drop_last(), groups, owner);
        let f = includes_run(fns, names.drop_last(), groups, owner)->Ok_0;
        if plugin_names(groups).contains(names.last()) {
            crate::group::lemma_plugin_index(groups, names.last());
            let k = plugin_index(groups, names.last());
            assert(no_includes(groups[k].fns));
            lemma_include_all_clean(f, groups[k].fns, include_info(names.last(), owner));
        }
    }
}

/// Include flattening is idempotent: flattening its own result again,
/// against groups that hold no include references themselves, gives the
/// same table.
pub proof fn lemma_flatten_idempotent(fns: Seq<FunV>, groups: Seq<PluginV>, owner: Seq<char>)
    requires
        flattened(fns, groups, owner) is Ok,
        forall|g: int| 0 <= g < groups.len() ==> no_includes(#[trigger] groups[g].fns),
    ensures
        flattened(flattened(fns, groups, owner)->Ok_0, groups, owner) == flattened(fns, groups, owner),
{
    lemma_without_includes_clean(fns);
    lemma_includes_clean(without_includes(fns), include_names(fns), groups, owner);
    lemma_no_includes_fixed(flattened(fns, groups, owner)->Ok_0);
}

/// Every group reference names an existing group.
pub open spec fn refs_resolve(v: Seq<PluginV>) -> bool {
    forall|i: int, j: int| 0 <= i < v.len() && 0 <= j < v[i].fns.len() && (#[trigger] v[i].fns[j]).flags.contains(FnFlag::PG)
        ==> plugin_names(v).contains(v[i].fns[j].name)
}

/// A group reference takes the effective alias of the group it names.
pub open spec fn resolve_fun(f: FunV, v: Seq<PluginV>) -> FunV {
    if f.flags.contains(FnFlag::PG) {
        let g = v[plugin_index(v, f.name)];
        FunV { alias: Some(effective_alias(g.name, g.alias)), ..f }
    } else {
        f
    }
}

pub open spec fn resolved(p: PluginV, v: Seq<PluginV>) -> PluginV {
    PluginV { fns: p.fns.map_values(|f: FunV| resolve_fun(f, v)), ..p }
}

/// All groups with their references resolved.
pub open spec fn finalized(v: Seq<PluginV>) -> Seq<PluginV> {
    v.map_values(|p: PluginV| resolved(p, v))
}

/// The first group reference among `fs` to a group that `v` does not hold.
pub open spec fn missing_in(fs: Seq<FunV>, v: Seq<PluginV>) -> Option<Seq<char>>
    decreases fs.len(),
{
    if fs.len() == 0 {
        None
    } else {
        let p = missing_in(fs.drop_last(), v);
        if p is Some {
            p
        } else if fs.last().flags.contains(FnFlag::PG) && !plugin_names(v).contains(fs.last().name) {
            Some(fs.last().name)
        } else {
            None
        }
    }
}

/// The first group of `ps`, in order, with a reference to a group that `v`
/// does not hold, and that reference.
pub open spec fn first_missing(ps: Seq<PluginV>, v: Seq<PluginV>) -> Option<(Seq<char>, Seq<char>)>
    decreases ps.len(),
{
    if ps.len() == 0 {
        None
    } else {
        let p = first_missing(ps.drop_last(), v);
        if p is Some {
            p
        } else {
            match missing_in(ps.last().fns, v) {
                Some(n) => Some((ps.last().name, n)),
                None => None,
            }
        }
    }
}

/// The error of the finalize pass on `v`.
pub open spec fn missing_err(v: Seq<PluginV>) -> ErrV {
    match first_missing(v, v) {
        Some(m) => ErrV::MissingPlugin(m.0, m.1),
        None => ErrV::MissingPlugin(Seq::empty(), Seq::empty()),
    }
}

proof fn lemma_missing_in_prefix(fs: Seq<FunV>, v: Seq<PluginV>, j: int)
    requires
        0 <= j <= fs.len(),
        missing_in(fs.subrange(0, j), v) is Some,
    ensures
        missing_in(fs, v) == missing_in(fs.subrange(0, j), v),
    decreases fs.len() - j,
{
    if j < fs.len() {
        assert(fs.subrange(0, j + 1).drop_last() =~= fs.subrange(0, j));
        lemma_missing_in_prefix(fs, v, j + 1);
    } else {
        assert(fs.subrange(0, j) =~= fs);
    }
}

proof fn lemma_first_missing_prefix(ps: Seq<PluginV>, v: Seq<PluginV>, i: int)
    requires
        0 <= i <= ps.len(),
        first_missing(ps.subrange(0, i), v) is Some,
    ensures
        first_missing(ps, v) == first_missing(ps.subrange(0, i), v),
    decreases ps.len() - i,
{
    if i < ps.len() {
        assert(ps.subrange(0, i + 1).drop_last() =~= ps.subrange(0, i));
        lemma_first_missing_prefix(ps, v, i + 1);
    } else {
        assert(ps.subrange(0, i) =~= ps);
    }
}

fn with_fns(p: &Plugin, fns: Vec<Fun>) -> (r: Plugin)
    ensures
        r@ == (PluginV { fns: fun_views(fns@), ..p@ }),
{
    Plugin {
        name: p.name.clone(),
        path: p.path.clone(),
        alias: crate::model::clone_opt(&p.alias),
        desc: crate::model::clone_opt(&p.desc),
        fns,
        sources: crate::model::clone_strings(&p.sources),
        fn_template: crate::model::clone_opt(&p.fn_template),
        fn_table_template: crate::model::clone_opt(&p.fn_table_template),
        binds: crate::model::clone_strings(&p.binds),
    }
}

proof fn lemma_missing_in_none(fs: Seq<FunV>, v: Seq<PluginV>)
    ensures
        missing_in(fs, v) is None <==> forall|j: int| 0 <= j < fs.len() && (#[trigger] fs[j]).flags.contains(FnFlag::PG)
            ==> plugin_names(v).contains(fs[j].name),
    decreases fs.len(),
{
    if fs.len() > 0 {
        let init = fs.drop_last();
        lemma_missing_in_none(init, v);
        if missing_in(fs, v) is None {
            assert forall|j: int| 0 <= j < fs.len() && (#[trigger] fs[j]).flags.contains(FnFlag::PG)
                implies plugin_names(v).contains(fs[j].name) by {
                if j < init.len() {
                    assert(init[j] == fs[j]);
                }
            }
        } else if missing_in(init, v) is Some {
            let j = choose|j: int| 0 <= j < init.len() && (#[trigger] init[j]).flags.contains(FnFlag::PG)
                && !plugin_names(v).contains(init[j].name);
            assert(fs[j] == init[j]);
        } else {
            assert(fs[fs.len() - 1] == fs.last());
        }
    }
}

fn resolve_one(f: &Fun, plugins: &Vec<Plugin>) -> (r: Option<Fun>)
    ensures
        r is None <==> (f@.flags.contains(FnFlag::PG) && !plugin_names(plugin_views(plugins@)).contains(f@.name)),
        r matches Some(g) ==> g@ == resolve_fun(f@, plugin_views(plugins@)),
{
    let mut g = f.duplicate();
    if f.flags.contains(FnFlag::PG) {
        match find_plugin(plugins, f.name.as_str()) {
            Some(k) => {
                assert(plugin_views(plugins@)[k as int] == plugins@[k as int]@);
                g.alias = Some(plugins[k].get_alias());
            },
            None => {
                return None;
            },
        }
    }
    Some(g)
}

fn resolve_group(p: &Plugin, plugins: &Vec<Plugin>) -> (r: Result<Plugin, ScanningError>)
    ensures
        ({
            let v = plugin_views(plugins@);
            &&& r is Ok <==> forall|j: int| 0 <= j < p@.fns.len() && (#[trigger] p@.fns[j]).flags.contains(FnFlag::PG)
                ==> plugin_names(v).contains(p@.fns[j].name)
            &&& r matches Ok(q) ==> q@ == resolved(p@, v)
            &&& r matches Err(e) ==> missing_in(p@.fns, v) matches Some(n)
                && err_view(e) == ErrV::MissingPlugin(p@.name, n)
            &&& r is Ok ==> missing_in(p@.fns, v) is None
        }),
{
    let ghost v = plugin_views(plugins@);
    proof {
        lemma_missing_in_none(p@.fns, v);
    }
    let mut fns: Vec<Fun> = Vec::new();
    let mut j: usize = 0;
    assert(p@.fns.subrange(0, 0) =~= Seq::<FunV>::empty());
    while j < p.fns.len()
        invariant
            j <= p.fns@.len(),
            v == plugin_views(plugins@),
            fun_views(fns@) == p@.fns.map_values(|f: FunV| resolve_fun(f, v)).subrange(0, j as int),
            missing_in(p@.fns.subrange(0, j as int), v) is None,
        decreases p.fns@.len() - j,
    {
        assert(p@.fns.subrange(0, j + 1).drop_last() =~= p@.fns.subrange(0, j as int));
        let f = &p.fns[j];
        assert(p@.fns[j as int] == f@);
        assert(p@.fns.subrange(0, j + 1).last() == f@);
        match resolve_one(f, plugins) {
            Some(g) => {
                let ghost before = fun_views(fns@);
                let ghost gv = g@;
                fns.push(g);
                assert(fun_views(fns@) =~= before.push(gv));
                j = j + 1;
                assert(fun_views(fns@) =~= p@.fns.map_values(|f: FunV| resolve_fun(f, v)).subrange(0, j as int));
            },
            None => {
                proof {
                    lemma_missing_in_prefix(p@.fns, v, j + 1);
                }
                return Err(ScanningError::MissingPlugin(p.name.clone(), f.name.clone()));
            },
        }
    }
    assert(p@.fns.map_values(|f: FunV| resolve_fun(f, v)).subrange(0, j as int) =~= p@.fns.map_values(|f: FunV| resolve_fun(f, v)));
    assert(p@.fns.subrange(0, j as int) =~= p@.fns);
    Ok(with_fns(p, fns))
}

/// Resolves group references: each must name an existing group
/// (`MissingPlugin` otherwise) and takes that group's effective alias.
/// Nothing changes on error.
pub fn finalize_plugins(plugins: &mut Vec<Plugin>) -> (r: Result<(), ScanningError>)
    ensures
        r is Ok <==> refs_resolve(plugin_views(old(plugins)@)),
        r is Ok ==> plugin_views(final(plugins)@) == finalized(plugin_views(old(plugins)@)),
        r is Err ==> final(plugins)@ == old(plugins)@,
        r matches Err(e) ==> first_missing(plugin_views(old(plugins)@), plugin_views(old(plugins)@)) is Some
            && err_view(e) == missing_err(plugin_views(old(plugins)@)),
{
    let ghost v = plugin_views(plugins@);
    let mut out: Vec<Plugin> = Vec::new();
    let mut i: usize = 0;
    while i < plugins.len()
        invariant
            i <= plugins@.len(),
            v == plugin_views(plugins@),
            *plugins == *old(plugins),
            plugin_views(out@) == finalized(v).subrange(0, i as int),
            forall|ii: int, j: int| 0 <= ii < i && 0 <= j < v[ii].fns.len() && (#[trigger] v[ii].fns[j]).flags.contains(FnFlag::PG)
                ==> plugin_names(v).contains(v[ii].fns[j].name),
            first_missing(v.subrange(0, i as int), v) is None,
        decreases plugins@.len() - i,
    {
        assert(v.subrange(0, i + 1).drop_last() =~= v.subrange(0, i as int));
        assert(v.subrange(0, i + 1).last() == v[i as int]);
        assert(v[i as int] == plugins@[i as int]@);
        match resolve_group(&plugins[i], plugins) {
            Ok(q) => {
                let ghost before = plugin_views(out@);
                let ghost qv = q@;
                out.push(q);
                assert(plugin_views(out@) =~= before.push(qv));
                i = i + 1;
                assert(plugin_views(out@) =~= finalized(v).subrange(0, i as int));
            },
            Err(e) => {
                proof {
                    lemma_first_missing_prefix(v, v, i + 1);
                }
                return Err(e);
            },
        }
    }
    assert(finalized(v).subrange(0, i as int) =~= finalized(v));
    *plugins = out;
    Ok(())
}

/// Include flattening of group `i` of `v` against the other groups of `v`.
pub open spec fn flatten_one(v: Seq<PluginV>, i: int) -> Result<PluginV, ErrV> {
    match flattened(v[i].fns, v.remove(i), v[i].name) {
        Ok(f) => Ok(PluginV { fns: f, ..v[i] }),
        Err(e) => Err(e),
    }
}

/// The first `n` groups of `v`, each flattened against the other groups as
/// they stand in `v`; the first error ends the pass.
pub open spec fn flatten_first(v: Seq<PluginV>, n: nat) -> Result<Seq<PluginV>, ErrV>
    decreases n,
{
    if n == 0 {
        Ok(Seq::empty())
    } else {
        match flatten_first(v, (n - 1) as nat) {
            Ok(w) => match flatten_one(v, n - 1) {
                Ok(p) => Ok(w.push(p)),
                Err(e) => Err(e),
            },
            Err(e) => Err(e),
        }
    }
}

/// The include-flattening pass over `v`: one level, every group against the
/// groups as they were before the pass.
pub open spec fn flatten_all(v: Seq<PluginV>) -> Result<Seq<PluginV>, ErrV> {
    flatten_first(v, v.len())
}

proof fn lemma_flatten_fails(v: Seq<PluginV>, n: nat, m: nat)
    requires
        n <= m,
        flatten_first(v, n) is Err,
    ensures
        flatten_first(v, m) == flatten_first(v, n),
    decreases m - n,
{
    if n < m {
        lemma_flatten_fails(v, n, (m - 1) as nat);
    }
}

fn copy_funs(v: &Vec<Fun>) -> (r: Vec<Fun>)
    ensures
        fun_views(r@) == fun_views(v@),
{
    let mut r: Vec<Fun> = Vec::new();
    let mut i: usize = 0;
    while i < v.len()
        invariant
            i <= v@.len(),
            fun_views(r@) == fun_views(v@).subrange(0, i as int),
        decreases v@.len() - i,
    {
        let ghost rb = fun_views(r@);
        r.push(v[i].duplicate());
        assert(fun_views(r@) =~= rb.push(v@[i as int]@));
        i = i + 1;
        assert(fun_views(r@) =~= fun_views(v@).subrange(0, i as int));
    }
    assert(fun_views(v@).subrange(0, i as int) =~= fun_views(v@));
    r
}

/// The include-flattening pass: one level, every group flattened against
/// the other groups as they were before the pass, so that the result does
/// not depend on the order of the groups. Nothing changes on error.
pub fn flatten_includes(plugins: &mut Vec<Plugin>) -> (r: Result<(), ScanningError>)
    ensures
        ({
            let run = flatten_all(plugin_views(old(plugins)@));
            &&& r is Ok ==> run == Ok::<Seq<PluginV>, ErrV>(plugin_views(final(plugins)@))
            &&& r matches Err(e) ==> run == Err::<Seq<PluginV>, ErrV>(err_view(e))
            &&& r is Err ==> final(plugins)@ == old(plugins)@
        }),
{
    let ghost v0 = plugin_views(plugins@);
    let n = plugins.len();
    let mut out: Vec<Plugin> = Vec::new();
    let mut i: usize = 0;
    assert(plugin_views(out@) =~= Seq::<PluginV>::empty());
    while i < n
        invariant
            i <= n,
            n == plugins@.len(),
            n == v0.len(),
            v0 == plugin_views(old(plugins)@),
            plugins@ == old(plugins)@,
            flatten_first(v0, i as nat) == Ok::<Seq<PluginV>, ErrV>(plugin_views(out@)),
        decreases n - i,
    {
        let ghost before = plugins@;
        let q = plugins.remove(i);
        assert(plugin_views(plugins@) =~= v0.remove(i as int));
        let mut p = with_fns(&q, copy_funs(&q.fns));
        assert(p@ == v0[i as int]);
        let res = p.map_includes(plugins);
        plugins.insert(i, q);
        assert(plugins@ =~= before);
        match res {
            Ok(()) => {
                let ghost ob = plugin_views(out@);
                let ghost pv = p@;
                out.push(p);
                assert(plugin_views(out@) =~= ob.push(pv));
            },
            Err(e) => {
                proof {
                    lemma_flatten_fails(v0, (i + 1) as nat, n as nat);
                }
                return Err(e);
            },
        }
        i = i + 1;
    }
    *plugins = out;
    Ok(())
}

/// The view of a settings-document group.
pub struct RawPluginV {
    pub name: Seq<char>,
    pub desc: Option<Seq<char>>,
    pub alias: Option<Seq<char>>,
    pub fns: Seq<FunV>,
    pub fn_template: Option<Seq<char>>,
    pub binds: Seq<Seq<char>>,
}

impl View for RawPlugin {
    type V = RawPluginV;

    open spec fn view(&self) -> RawPluginV {
        RawPluginV {
            name: self.name@,
            desc: opt_view(self.desc),
            alias: opt_view(self.alias),
            fns: fun_views(self.fns@),
            fn_template: opt_view(self.fn_template),
            binds: views(self.binds@),
        }
    }
}

/// A group with a settings-document entry applied.
pub open spec fn merged_plugin(p: PluginV, raw: RawPluginV) -> Result<PluginV, ErrV> {
    match raw_run(p.fns, raw.fns) {
        Ok(f) => Ok(PluginV {
            desc: override_with(p.desc, raw.desc),
            alias: override_with(p.alias, raw.alias),
            binds: if raw.binds.len() > 0 { raw.binds } else { p.binds },
            fn_template: override_with(p.fn_template, raw.fn_template),
            fns: f,
            ..p
        }),
        Err(e) => Err(e),
    }
}

/// One settings-document entry applied to the groups: merged into the group
/// of that name, or recorded as naming no scanned group.
#[verifier::opaque]
pub open spec fn settings_step(acc: (Seq<PluginV>, Seq<Seq<char>>), raw: RawPluginV) -> Result<(Seq<PluginV>, Seq<Seq<char>>), ErrV> {
    let v = acc.0;
    if plugin_names(v).contains(raw.name) {
        let k = plugin_index(v, raw.name);
        match merged_plugin(v[k], raw) {
            Ok(q) => Ok((v.update(k, q), acc.1)),
            Err(e) => Err(e),
        }
    } else {
        Ok((v, acc.1.push(raw.name)))
    }
}

pub open spec fn settings_run(v: Seq<PluginV>, raws: Seq<RawPluginV>) -> Result<(Seq<PluginV>, Seq<Seq<char>>), ErrV>
    decreases raws.len(),
{
    if raws.len() == 0 {
        Ok((v, Seq::empty()))
    } else {
        match settings_run(v, raws.drop_last()) {
            Ok(acc) => settings_step(acc, raws.last()),
            Err(e) => Err(e),
        }
    }
}

proof fn lemma_settings_fails(v: Seq<PluginV>, raws: Seq<RawPluginV>, i: int)
    requires
        0 <= i <= raws.len(),
        settings_run(v, raws.subrange(0, i)) is Err,
    ensures
        settings_run(v, raws) == settings_run(v, raws.subrange(0, i)),
    decreases raws.len() - i,
{
    if i < raws.len() {
        assert(raws.subrange(0, i + 1).drop_last() =~= raws.subrange(0, i));
        lemma_settings_fails(v, raws, i + 1);
    } else {
        assert(raws.subrange(0, i) =~= raws);
    }
}

/// The views of settings-document groups.
pub open spec fn raw_views(v: Seq<RawPlugin>) -> Seq<RawPluginV> {
    v.map_values(|r: RawPlugin| r@)
}

proof fn lemma_raw_shift(before: Seq<RawPlugin>, after: Seq<RawPlugin>, rs: Seq<RawPluginV>, i: int)
    requires
        0 <= i < rs.len(),
        before.len() > 0,
        raw_views(before) == rs.subrange(i, rs.len() as int),
        after == before.remove(0),
    ensures
        raw_views(after) == rs.subrange(i + 1, rs.len() as int),
        before[0]@ == rs[i],
{
    assert(raw_views(before)[0] == before[0]@);
    assert(raw_views(before).len() == before.len());
    assert(after.len() == before.len() - 1);
    assert(raw_views(after) =~= rs.subrange(i + 1, rs.len() as int)) by {
        assert forall|j: int| 0 <= j < after.len() implies raw_views(after)[j] == rs.subrange(i + 1, rs.len() as int)[j] by {
            assert(after[j] == before[j + 1]);
            assert(raw_views(before)[j + 1] == before[j + 1]@);
            assert(raw_views(before)[j + 1] == rs.subrange(i, rs.len() as int)[j + 1]);
            assert(raw_views(after)[j] == after[j]@);
        }
    }
}

fn apply_setting(plugins: &mut Vec<Plugin>, unknown: &mut Vec<String>, raw: RawPlugin) -> (r: Result<(), ScanningError>)
    ensures
        ({
            let s = settings_step((plugin_views(old(plugins)@), views(old(unknown)@)), raw@);
            &&& r is Ok ==> (s matches Ok(acc) && plugin_views(final(plugins)@) == acc.0 && views(final(unknown)@) == acc.1)
            &&& r matches Err(e) ==> s == Err::<(Seq<PluginV>, Seq<Seq<char>>), ErrV>(err_view(e))
        }),
{
    proof {
        reveal(settings_step);
    }
    let ghost w = plugin_views(plugins@);
    let ghost rv = raw@;
    match find_plugin(plugins, raw.name.as_str()) {
        Some(k) => {
            let mut p = plugins.remove(k);
            assert(p@ == w[k as int]);
            let res = p.merge_from_raw(raw);
            let ghost pv = p@;
            plugins.insert(k, p);
            assert(plugin_views(plugins@) =~= w.update(k as int, pv));
            res
        },
        None => {
            let ghost ub = views(unknown@);
            unknown.push(raw.name);
            assert(views(unknown@) =~= ub.push(rv.name));
            Ok(())
        },
    }
}

/// The settings-document pass: each entry merged into the scanned group of
/// its name, in order; the names that match no scanned group are handed back.
pub fn merge_settings(plugins: &mut Vec<Plugin>, raws: Vec<RawPlugin>) -> (r: Result<Vec<String>, ScanningError>)
    ensures
        ({
            let run = settings_run(plugin_views(old(plugins)@), raw_views(raws@));
            &&& r matches Err(e) ==> run == Err::<(Seq<PluginV>, Seq<Seq<char>>), ErrV>(err_view(e))
            &&& r matches Ok(unknown) ==> (run matches Ok(acc) && plugin_views(final(plugins)@) == acc.0
                && views(unknown@) == acc.1)
        }),
{
    let ghost v0 = plugin_views(plugins@);
    let ghost rs = raw_views(raws@);
    let mut unknown: Vec<String> = Vec::new();
    let mut rest = raws;
    let ghost mut i: int = 0;
    assert(rs.subrange(0, 0) =~= Seq::<RawPluginV>::empty());
    assert(raw_views(rest@) =~= rs.subrange(0, rest@.len() as int));
    assert(views(unknown@) =~= Seq::<Seq<char>>::empty());
    while rest.len() > 0
        invariant
            0 <= i <= rs.len(),
            i + rest@.len() == rs.len(),
            raw_views(rest@) == rs.subrange(i, rs.len() as int),
            v0 == plugin_views(old(plugins)@),
            rs == raw_views(raws@),
            settings_run(v0, rs.subrange(0, i)) == Ok::<(Seq<PluginV>, Seq<Seq<char>>), ErrV>((plugin_views(plugins@), views(unknown@))),
        decreases rest@.len(),
    {
        let ghost rest_before = rest@;
        let raw = rest.remove(0);
        proof {
            lemma_raw_shift(rest_before, rest@, rs, i);
        }
        assert(rs.subrange(0, i + 1).drop_last() =~= rs.subrange(0, i));
        assert(rs.subrange(0, i + 1).last() == rs[i]);
        assert(raw@ == rs[i]);
        let ghost acc = (plugin_views(plugins@), views(unknown@));
        match apply_setting(plugins, &mut unknown, raw) {
            Ok(()) => {},
            Err(e) => {
                proof {
                    assert(settings_step(acc, rs[i]) == Err::<(Seq<PluginV>, Seq<Seq<char>>), ErrV>(err_view(e)));
                    assert(settings_run(v0, rs.subrange(0, i + 1)) == Err::<(Seq<PluginV>, Seq<Seq<char>>), ErrV>(err_view(e)));
                    lemma_settings_fails(v0, rs, i + 1);
                }
                return Err(e);
            },
        }
        proof {
            i = i + 1;
        }
    }
    assert(rs.subrange(0, i) =~= rs);
    Ok(unknown)
}

proof fn lemma_raw_unique(fns: Seq<FunV>, rfs: Seq<FunV>)
    requires
        crate::model::names_unique(fns),
        raw_run(fns, rfs) is Ok,
    ensures
        crate::model::names_unique(raw_run(fns, rfs)->Ok_0),
    decreases rfs.len(),
{
    if rfs.len() > 0 {
        lemma_raw_unique(fns, rfs.drop_last());
        let f = raw_run(fns, rfs.drop_last())->Ok_0;
        let rf = rfs.last();
        let r = raw_step(f, rf)->Ok_0;
        let names = fun_names(f);
        if names.contains(rf.name) {
            let k = first_named(names, rf.name);
            let i0 = choose|i: int| 0 <= i < names.len() && names[i] == rf.name;
            crate::model::lemma_first_named_exists(names, rf.name, i0);
            assert(r == f.update(k, checked(merged(f[k], rf))));
            assert forall|i: int, j: int| 0 <= i < j < r.len() implies (#[trigger] r[i]).name != (#[trigger] r[j]).name by {
                assert(r[i].name == f[i].name);
                assert(r[j].name == f[j].name);
            }
        } else {
            crate::model::lemma_insert_unique();
            assert(insert_result(f, rf, Seq::empty()) is Ok);
            assert(r == insert_result(f, rf, Seq::empty())->Ok_0);
        }
    }
}

proof fn lemma_without_includes_unique(fns: Seq<FunV>)
    requires
        crate::model::names_unique(fns),
    ensures
        crate::model::names_unique(without_includes(fns)),
        forall|x: FunV| #[trigger] without_includes(fns).contains(x) ==> fns.contains(x),
    decreases fns.len(),
{
    if fns.len() > 0 {
        let init = fns.drop_last();
        assert(crate::model::names_unique(init)) by {
            assert forall|i: int, j: int| 0 <= i < j < init.len() implies (#[trigger] init[i]).name != (#[trigger] init[j]).name by {
                assert(init[i] == fns[i] && init[j] == fns[j]);
            }
        }
        lemma_without_includes_unique(init);
        let w = without_includes(init);
        assert forall|x: FunV| #[trigger] without_includes(fns).contains(x) implies fns.contains(x) by {
            let wf = without_includes(fns);
            let j = choose|j: int| 0 <= j < wf.len() && wf[j] == x;
            if j < w.len() {
                assert(w[j] == x);
                assert(w.contains(x));
                let i = choose|i: int| 0 <= i < init.len() && init[i] == x;
                assert(fns[i] == x);
            } else {
                assert(fns[fns.len() - 1] == x);
            }
        }
        if !fns.last().flags.contains(FnFlag::PGI) {
            let r = w.push(fns.last());
            assert forall|i: int, j: int| 0 <= i < j < r.len() implies (#[trigger] r[i]).name != (#[trigger] r[j]).name by {
                if j == w.len() {
                    assert(w.contains(w[i]));
                    let q = choose|q: int| 0 <= q < init.len() && init[q] == w[i];
                    assert(fns[q] == init[q]);
                    assert(fns[fns.len() - 1] == fns.last());
                } else {
                    assert(r[i] == w[i] && r[j] == w[j]);
                }
            }
        }
    }
}

proof fn lemma_include_all_unique(fns: Seq<FunV>, src: Seq<FunV>, info: Seq<char>)
    requires
        crate::model::names_unique(fns),
        include_all(fns, src, info) is Ok,
    ensures
        crate::model::names_unique(include_all(fns, src, info)->Ok_0),
    decreases src.len(),
{
    crate::model::lemma_copy_unique();
    if src.len() > 0 {
        lemma_include_all_unique(fns, src.drop_last(), info);
    }
}

proof fn lemma_includes_unique(fns: Seq<FunV>, names: Seq<Seq<char>>, groups: Seq<PluginV>, owner: Seq<char>)
    requires
        crate::model::names_unique(fns),
        includes_run(fns, names, groups, owner) is Ok,
    ensures
        crate::model::names_unique(includes_run(fns, names, groups, owner)->Ok_0),
    decreases names.len(),
{
    if names.len() > 0 {
        lemma_includes_unique(fns, names.drop_last(), groups, owner);
        let f = includes_run(fns, names.drop_last(), groups, owner)->Ok_0;
        if plugin_names(groups).contains(names.last()) {
            lemma_include_all_unique(f, groups[plugin_index(groups, names.last())].fns, include_info(names.last(), owner));
        }
    }
}

/// Include flattening keeps the function names of every group distinct.
pub proof fn lemma_flatten_unique(v: Seq<PluginV>, n: nat)
    requires
        crate::model::tables_unique(v),
        flatten_first(v, n) is Ok,
        n <= v.len(),
    ensures
        crate::model::tables_unique(flatten_first(v, n)->Ok_0),
        flatten_first(v, n)->Ok_0.len() == n,
    decreases n,
{
    if n > 0 {
        lemma_flatten_unique(v, (n - 1) as nat);
        let w = flatten_first(v, (n - 1) as nat)->Ok_0;
        let i = n - 1;
        assert(crate::model::names_unique(v[i].fns));
        lemma_without_includes_unique(v[i].fns);
        lemma_includes_unique(without_includes(v[i].fns), include_names(v[i].fns), v.remove(i), v[i].name);
        let r = flatten_first(v, n)->Ok_0;
        assert forall|q: int| 0 <= q < r.len() implies crate::model::names_unique(#[trigger] r[q].fns) by {
            if q < i {
                assert(r[q] == w[q]);
                assert(crate::model::names_unique(w[q].fns));
            }
        }
    }
}

/// Applying the settings document keeps the function names of every group distinct.
pub proof fn lemma_settings_unique(v: Seq<PluginV>, raws: Seq<RawPluginV>)
    requires
        crate::model::tables_unique(v),
        settings_run(v, raws) is Ok,
    ensures
        crate::model::tables_unique(settings_run(v, raws)->Ok_0.0),
    decreases raws.len(),
{
    reveal(settings_step);
    if raws.len() > 0 {
        lemma_settings_unique(v, raws.drop_last());
        let acc = settings_run(v, raws.drop_last())->Ok_0;
        let raw = raws.last();
        let w = acc.0;
        if plugin_names(w).contains(raw.name) {
            crate::group::lemma_plugin_index(w, raw.name);
            let k = plugin_index(w, raw.name);
            assert(crate::model::names_unique(w[k].fns));
            lemma_raw_unique(w[k].fns, raw.fns);
            let r = settings_run(v, raws)->Ok_0.0;
            assert forall|q: int| 0 <= q < r.len() implies crate::model::names_unique(#[trigger] r[q].fns) by {
                if q != k {
                    assert(r[q] == w[q]);
                    assert(crate::model::names_unique(w[q].fns));
                }
            }
        }
    }
}

/// Resolving group references keeps the function names of every group distinct.
pub proof fn lemma_finalized_unique(v: Seq<PluginV>)
    requires
        crate::model::tables_unique(v),
    ensures
        crate::model::tables_unique(finalized(v)),
{
    assert forall|q: int| 0 <= q < finalized(v).len() implies crate::model::names_unique(#[trigger] finalized(v)[q].fns) by {
        let fs = v[q].fns;
        let r = finalized(v)[q].fns;
        assert(crate::model::names_unique(fs));
        assert forall|i: int, j: int| 0 <= i < j < r.len() implies (#[trigger] r[i]).name != (#[trigger] r[j]).name by {
            assert(r[i].name == fs[i].name && r[j].name == fs[j].name);
        }
    }
}

/// A function that the settings document adds, with key bindings and no
/// run-mode flag, carries exactly one run-mode flag once added: the widget flag.
pub proof fn lemma_settings_function_widget(fns: Seq<FunV>, rf: FunV)
    requires
        !fun_names(fns).contains(rf.name),
        crate::flags::first_run_mode(rf.flags) is None,
        rf.binds.len() > 0,
    ensures
        raw_step(fns, rf) is Ok,
        raw_step(fns, rf)->Ok_0.last() == checked(rf),
        crate::flags::run_modes(raw_step(fns, rf)->Ok_0.last().flags) == seq![FnFlag::WG],
{
    crate::model::lemma_check_makes_widget(rf);
    assert(!rf.flags.contains(FnFlag::WG)) by {
        crate::flags::lemma_no_run_mode_no_widget(rf.flags);
    }
}

/// The functions of `rfs` have distinct names, none of them in `fns`, and
/// validation rejects none of them.
pub open spec fn fresh_functions(fns: Seq<FunV>, rfs: Seq<FunV>) -> bool {
    &&& forall|i: int| 0 <= i < rfs.len() ==> !fun_names(fns).contains(#[trigger] rfs[i].name) && !check_rejects(rfs[i])
    &&& forall|i: int, j: int| 0 <= i < j < rfs.len() ==> (#[trigger] rfs[i]).name != (#[trigger] rfs[j]).name
}

proof fn lemma_raw_run_fresh(fns: Seq<FunV>, rfs: Seq<FunV>)
    requires
        fresh_functions(fns, rfs),
    ensures
        raw_run(fns, rfs) == Ok::<Seq<FunV>, ErrV>(fns + rfs.map_values(|f: FunV| checked(f))),
    decreases rfs.len(),
{
    if rfs.len() > 0 {
        let init = rfs.drop_last();
        assert forall|i: int, j: int| 0 <= i < j < init.len() implies (#[trigger] init[i]).name != (#[trigger] init[j]).name by {
            assert(init[i] == rfs[i] && init[j] == rfs[j]);
        }
        assert forall|i: int| 0 <= i < init.len() implies !fun_names(fns).contains(#[trigger] init[i].name) && !check_rejects(init[i]) by {
            assert(init[i] == rfs[i]);
        }
        lemma_raw_run_fresh(fns, init);
        let f = fns + init.map_values(|x: FunV| checked(x));
        let last = rfs.last();
        assert(rfs[rfs.len() - 1] == last);
        assert(!fun_names(f).contains(last.name)) by {
            if fun_names(f).contains(last.name) {
                let k = choose|k: int| 0 <= k < fun_names(f).len() && fun_names(f)[k] == last.name;
                if k < fns.len() {
                    assert(fun_names(fns)[k] == last.name);
                } else {
                    assert(f[k] == checked(init[k - fns.len()]));
                    assert(init[k - fns.len()] == rfs[k - fns.len()]);
                }
            }
        }
        assert(f.push(checked(last)) =~= fns + rfs.map_values(|x: FunV| checked(x)));
    } else {
        assert(fns + rfs.map_values(|x: FunV| checked(x)) =~= fns);
    }
}

/// Every function that a settings entry adds, with key bindings and no
/// run-mode flag, carries exactly one run-mode flag afterwards: the widget
/// flag (for an entry whose functions are all new, with distinct names).
pub proof fn lemma_settings_entry_widgets(fns: Seq<FunV>, rfs: Seq<FunV>)
    requires
        fresh_functions(fns, rfs),
    ensures
        raw_run(fns, rfs) is Ok,
        forall|i: int| 0 <= i < rfs.len() && crate::flags::first_run_mode(rfs[i].flags) is None && rfs[i].binds.len() > 0
            ==> crate::flags::run_modes((#[trigger] raw_run(fns, rfs)->Ok_0[fns.len() + i]).flags) == seq![FnFlag::WG],
{
    lemma_raw_run_fresh(fns, rfs);
    assert forall|i: int| 0 <= i < rfs.len() && crate::flags::first_run_mode(rfs[i].flags) is None && rfs[i].binds.len() > 0
        implies crate::flags::run_modes((#[trigger] raw_run(fns, rfs)->Ok_0[fns.len() + i]).flags) == seq![FnFlag::WG] by {
        crate::model::lemma_check_makes_widget(rfs[i]);
        assert(raw_run(fns, rfs)->Ok_0[fns.len() + i] == checked(rfs[i]));
    }
}

} // verus!
