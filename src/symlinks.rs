//! Decisions of the symlink manager: which links a run creates, and how a
//! failed run is rolled back. Performing them on disk is the caller's part.
use vstd::prelude::*;
use crate::config::{GlobalConfig, join_path, path_join};
use crate::flags::FnFlag;
use crate::group::plugin_views;
use crate::model::{FunV, Plugin, PluginV};
use crate::template::cmd_of;
use crate::text::views;

verus! {

/// A link to create: the backing binary and the path of the link.
#[derive(Debug)]
pub struct LinkPlan {
    pub source: String,
    pub link: String,
}

/// A function gets a link when it has a backing binary and is neither a
/// widget nor a group reference.
pub open spec fn gets_link(f: FunV) -> bool {
    !f.flags.contains(FnFlag::WG) && !f.flags.contains(FnFlag::PG) && f.bin is Some
}

/// The links of one group's functions, in order.
pub open spec fn group_links(fs: Seq<FunV>, p: PluginV, cfg: &GlobalConfig) -> Seq<(Seq<char>, Seq<char>)>
    decreases fs.len(),
{
    if fs.len() == 0 {
        Seq::empty()
    } else if gets_link(fs.last()) {
        group_links(fs.drop_last(), p, cfg).push((
            fs.last().bin->0,
            join_path(cfg.path_dir@, cmd_of(fs.last(), p, cfg.selector_widget_template@, cfg.fn_template@)),
        ))
    } else {
        group_links(fs.drop_last(), p, cfg)
    }
}

/// The links of all groups, in order.
pub open spec fn all_links(v: Seq<PluginV>, cfg: &GlobalConfig) -> Seq<(Seq<char>, Seq<char>)>
    decreases v.len(),
{
    if v.len() == 0 {
        Seq::empty()
    } else {
        all_links(v.drop_last(), cfg) + group_links(v.last().fns, v.last(), cfg)
    }
}

pub open spec fn plan_views(v: Seq<LinkPlan>) -> Seq<(Seq<char>, Seq<char>)> {
    v.map_values(|l: LinkPlan| (l.source@, l.link@))
}

/// The links to create in the managed directory: one per function with a
/// backing binary that is neither a widget nor a group reference, named
/// after its resolved invocation.
pub fn symlink_plan(plugins: &Vec<Plugin>, global_config: &GlobalConfig) -> (r: Vec<LinkPlan>)
    ensures
        plan_views(r@) == all_links(plugin_views(plugins@), global_config),
{
    let ghost v = plugin_views(plugins@);
    let mut r: Vec<LinkPlan> = Vec::new();
    let mut i: usize = 0;
    assert(v.subrange(0, 0) =~= Seq::<PluginV>::empty());
    while i < plugins.len()
        invariant
            i <= plugins@.len(),
            v == plugin_views(plugins@),
            plan_views(r@) == all_links(v.subrange(0, i as int), global_config),
        decreases plugins@.len() - i,
    {
        assert(v.subrange(0, i + 1).drop_last() =~= v.subrange(0, i as int));
        assert(v.subrange(0, i + 1).last() == plugins@[i as int]@);
        let pg = &plugins[i];
        let ghost r0 = plan_views(r@);
        let mut j: usize = 0;
        assert(pg@.fns.subrange(0, 0) =~= Seq::<FunV>::empty());
        assert(r0 + group_links(pg@.fns.subrange(0, 0), pg@, global_config) =~= r0);
        while j < pg.fns.len()
            invariant
                j <= pg.fns@.len(),
                plan_views(r@) == r0 + group_links(pg@.fns.subrange(0, j as int), pg@, global_config),
            decreases pg.fns@.len() - j,
        {
            assert(pg@.fns.subrange(0, j + 1).drop_last() =~= pg@.fns.subrange(0, j as int));
            assert(pg@.fns.subrange(0, j + 1).last() == pg.fns@[j as int]@);
            let f = &pg.fns[j];
            if !f.flags.contains(FnFlag::WG) && !f.flags.contains(FnFlag::PG) {
                if let Some(src) = &f.bin {
                    let link = path_join(global_config.path_dir.as_str(), f.get_cmd(pg, global_config).as_str());
                    let ghost rb = plan_views(r@);
                    r.push(LinkPlan { source: src.clone(), link });
                    assert(plan_views(r@) =~= rb.push((r@.last().source@, r@.last().link@)));
                    assert(plan_views(r@) =~= r0 + group_links(pg@.fns.subrange(0, j + 1), pg@, global_config));
                }
            }
            j = j + 1;
        }
        assert(pg@.fns.subrange(0, j as int) =~= pg@.fns);
        i = i + 1;
    }
    assert(v.subrange(0, i as int) =~= v);
    r
}

/// A step of rolling back a failed run.
#[derive(Debug)]
pub enum RollbackStep {
    /// Remove a link this run created.
    RemoveCreated(String),
    /// Move a backed-up link back into the managed directory.
    Restore(String),
}

/// The view of a rollback step: whether it restores, and the name.
pub open spec fn step_view(s: RollbackStep) -> (bool, Seq<char>) {
    match s {
        RollbackStep::RemoveCreated(n) => (false, n@),
        RollbackStep::Restore(n) => (true, n@),
    }
}

/// The symlinks of the managed directory and of the backup directory: each
/// name with the target the link points at.
pub struct FarmV {
    pub dir: Map<Seq<char>, Seq<char>>,
    pub backup: Map<Seq<char>, Seq<char>>,
}

/// Moving every symlink of the managed directory into the backup.
pub open spec fn after_backup(st: FarmV) -> FarmV {
    FarmV { dir: Map::empty(), backup: st.backup.union_prefer_right(st.dir) }
}

/// The links created before the failure, each a name and its target.
pub open spec fn after_creates(st: FarmV, created: Seq<(Seq<char>, Seq<char>)>) -> FarmV
    decreases created.len(),
{
    if created.len() == 0 {
        st
    } else {
        let s = after_creates(st, created.drop_last());
        FarmV { dir: s.dir.insert(created.last().0, created.last().1), ..s }
    }
}

/// The effect of one rollback step: a restored link comes back with the
/// target it had in the backup.
pub open spec fn apply_step(st: FarmV, s: (bool, Seq<char>)) -> FarmV {
    if s.0 {
        FarmV { dir: st.dir.insert(s.1, st.backup[s.1]), backup: st.backup.remove(s.1) }
    } else {
        FarmV { dir: st.dir.remove(s.1), ..st }
    }
}

pub open spec fn apply_steps(st: FarmV, ss: Seq<(bool, Seq<char>)>) -> FarmV
    decreases ss.len(),
{
    if ss.len() == 0 {
        st
    } else {
        apply_step(apply_steps(st, ss.drop_last()), ss.last())
    }
}

/// Removing each of the links `c`.
pub open spec fn remove_steps(c: Seq<Seq<char>>) -> Seq<(bool, Seq<char>)> {
    c.map_values(|n: Seq<char>| (false, n))
}

/// Restoring each of the backed-up links `b`.
pub open spec fn restore_steps(b: Seq<Seq<char>>) -> Seq<(bool, Seq<char>)> {
    b.map_values(|n: Seq<char>| (true, n))
}

/// The rollback steps: first remove what this run created, then restore
/// every backed-up link.
pub open spec fn rollback_steps(backed_up: Seq<Seq<char>>, created: Seq<Seq<char>>) -> Seq<(bool, Seq<char>)> {
    remove_steps(created) + restore_steps(backed_up)
}

/// The steps that undo a failed run.
pub fn rollback_plan(backed_up: &Vec<String>, created: &Vec<String>) -> (r: Vec<RollbackStep>)
    ensures
        r@.map_values(|s: RollbackStep| step_view(s)) == rollback_steps(views(backed_up@), views(created@)),
{
    let mut r: Vec<RollbackStep> = Vec::new();
    let mut i: usize = 0;
    while i < created.len()
        invariant
            i <= created@.len(),
            r@.map_values(|s: RollbackStep| step_view(s)) == views(created@).subrange(0, i as int).map_values(|n: Seq<char>| (false, n)),
        decreases created@.len() - i,
    {
        let n = created[i].clone();
        let ghost prev = r@.map_values(|s: RollbackStep| step_view(s));
        let ghost nv = n@;
        r.push(RollbackStep::RemoveCreated(n));
        assert(r@.map_values(|s: RollbackStep| step_view(s)) =~= prev.push((false, nv)));
        assert(views(created@).subrange(0, i + 1) =~= views(created@).subrange(0, i as int).push(nv));
        i = i + 1;
        assert(r@.map_values(|s: RollbackStep| step_view(s)) =~= views(created@).subrange(0, i as int).map_values(|n: Seq<char>| (false, n)));
    }
    assert(views(created@).subrange(0, i as int) =~= views(created@));
    let ghost r0 = r@.map_values(|s: RollbackStep| step_view(s));
    let mut j: usize = 0;
    while j < backed_up.len()
        invariant
            j <= backed_up@.len(),
            r@.map_values(|s: RollbackStep| step_view(s)) == r0 + views(backed_up@).subrange(0, j as int).map_values(|n: Seq<char>| (true, n)),
        decreases backed_up@.len() - j,
    {
        let n = backed_up[j].clone();
        let ghost prev = r@.map_values(|s: RollbackStep| step_view(s));
        let ghost nv = n@;
        r.push(RollbackStep::Restore(n));
        assert(r@.map_values(|s: RollbackStep| step_view(s)) =~= prev.push((true, nv)));
        assert(views(backed_up@).subrange(0, j + 1) =~= views(backed_up@).subrange(0, j as int).push(nv));
        j = j + 1;
        assert(r@.map_values(|s: RollbackStep| step_view(s)) =~= r0 + views(backed_up@).subrange(0, j as int).map_values(|n: Seq<char>| (true, n)));
    }
    assert(views(backed_up@).subrange(0, j as int) =~= views(backed_up@));
    r
}

/// The names of created links.
pub open spec fn link_names(created: Seq<(Seq<char>, Seq<char>)>) -> Seq<Seq<char>> {
    created.map_values(|c: (Seq<char>, Seq<char>)| c.0)
}

proof fn lemma_creates(st: FarmV, c: Seq<(Seq<char>, Seq<char>)>)
    ensures
        after_creates(st, c).backup == st.backup,
        after_creates(st, c).dir.dom() == st.dir.dom().union(link_names(c).to_set()),
    decreases c.len(),
{
    if c.len() > 0 {
        lemma_creates(st, c.drop_last());
        assert(link_names(c).drop_last() =~= link_names(c.drop_last()));
        assert(link_names(c.drop_last()).push(c.last().0) =~= link_names(c));
        link_names(c.drop_last()).lemma_push_to_set_commute(c.last().0);
        assert(after_creates(st, c).dir.dom() =~= st.dir.dom().union(link_names(c).to_set()));
    } else {
        assert(link_names(c).to_set() =~= Set::<Seq<char>>::empty());
        assert(st.dir.dom().union(link_names(c).to_set()) =~= st.dir.dom());
    }
}

proof fn lemma_removes(st: FarmV, c: Seq<Seq<char>>)
    ensures
        apply_steps(st, remove_steps(c)).backup == st.backup,
        apply_steps(st, remove_steps(c)).dir.dom() == st.dir.dom().difference(c.to_set()),
    decreases c.len(),
{
    if c.len() > 0 {
        lemma_removes(st, c.drop_last());
        assert(remove_steps(c).drop_last() =~= remove_steps(c.drop_last()));
        assert(c.drop_last().push(c.last()) =~= c);
        c.drop_last().lemma_push_to_set_commute(c.last());
        assert(st.dir.dom().difference(c.drop_last().to_set()).remove(c.last()) =~= st.dir.dom().difference(c.to_set()));
    } else {
        assert(st.dir.dom().difference(c.to_set()) =~= st.dir.dom());
    }
}

proof fn lemma_restores(st: FarmV, b: Seq<Seq<char>>)
    requires
        b.no_duplicates(),
        forall|n: Seq<char>| b.contains(n) ==> #[trigger] st.backup.contains_key(n),
    ensures
        forall|n: Seq<char>| b.contains(n) ==> #[trigger] apply_steps(st, restore_steps(b)).dir.contains_key(n)
            && apply_steps(st, restore_steps(b)).dir[n] == st.backup[n],
        forall|n: Seq<char>| !b.contains(n) ==> (#[trigger] apply_steps(st, restore_steps(b)).dir.contains_key(n)
            <==> st.dir.contains_key(n)),
        forall|n: Seq<char>| !b.contains(n) ==> (#[trigger] apply_steps(st, restore_steps(b)).backup.contains_key(n)
            <==> st.backup.contains_key(n)) && (st.backup.contains_key(n) ==>
            apply_steps(st, restore_steps(b)).backup[n] == st.backup[n]),
    decreases b.len(),
{
    if b.len() > 0 {
        let init = b.drop_last();
        assert(init.no_duplicates()) by {
            assert forall|i: int, j: int| 0 <= i < j < init.len() implies init[i] != init[j] by {
                assert(init[i] == b[i] && init[j] == b[j]);
            }
        }
        assert forall|n: Seq<char>| init.contains(n) implies #[trigger] st.backup.contains_key(n) by {
            let i = choose|i: int| 0 <= i < init.len() && init[i] == n;
            assert(b[i] == n);
        }
        lemma_restores(st, init);
        assert(restore_steps(b).drop_last() =~= restore_steps(init));
        let last = b.last();
        assert(!init.contains(last)) by {
            if init.contains(last) {
                let i = choose|i: int| 0 <= i < init.len() && init[i] == last;
                assert(b[i] == b[b.len() - 1]);
            }
        }
        assert(b.contains(last)) by {
            assert(b[b.len() - 1] == last);
        }
        assert forall|n: Seq<char>| b.contains(n) && n != last implies init.contains(n) by {
            let i = choose|i: int| 0 <= i < b.len() && b[i] == n;
            if i == b.len() - 1 {
            } else {
                assert(init[i] == n);
            }
        }
        assert forall|n: Seq<char>| init.contains(n) implies b.contains(n) by {
            let i = choose|i: int| 0 <= i < init.len() && init[i] == n;
            assert(b[i] == n);
        }
        let s0 = apply_steps(st, restore_steps(init));
        assert(restore_steps(b).last() == (true, last));
        let fin = apply_steps(st, restore_steps(b));
        assert(fin == apply_step(s0, (true, last)));
        assert(st.backup.contains_key(last));
        assert(s0.backup.contains_key(last) <==> st.backup.contains_key(last));
        assert(s0.backup[last] == st.backup[last]);
        assert forall|n: Seq<char>| b.contains(n) implies #[trigger] fin.dir.contains_key(n) && fin.dir[n] == st.backup[n] by {
            if n != last {
                assert(init.contains(n));
                assert(s0.dir.contains_key(n));
                assert(s0.dir[n] == st.backup[n]);
            }
        }
        assert forall|n: Seq<char>| !b.contains(n) implies (#[trigger] fin.dir.contains_key(n) <==> st.dir.contains_key(n)) by {
            assert(!init.contains(n));
            assert(s0.dir.contains_key(n) <==> st.dir.contains_key(n));
        }
        assert forall|n: Seq<char>| !b.contains(n) implies (#[trigger] fin.backup.contains_key(n) <==> st.backup.contains_key(n))
            && (st.backup.contains_key(n) ==> fin.backup[n] == st.backup[n]) by {
            assert(!init.contains(n));
            assert(s0.backup.contains_key(n) <==> st.backup.contains_key(n));
        }
    } else {
        assert(restore_steps(b) =~= Seq::<(bool, Seq<char>)>::empty());
    }
}

/// Rollback restores the managed directory: when a run that backed up all
/// the symlinks of the directory (`before`, each name with its target; the
/// names in `backed_up`) fails after creating the links `created`, the
/// rollback steps leave the directory with exactly the symlinks, and the
/// targets, it had before the run.
pub proof fn lemma_rollback_restores(
    before: Map<Seq<char>, Seq<char>>,
    backed_up: Seq<Seq<char>>,
    created: Seq<(Seq<char>, Seq<char>)>,
)
    requires
        backed_up.no_duplicates(),
        backed_up.to_set() == before.dom(),
    ensures
        ({
            let start = FarmV { dir: before, backup: Map::empty() };
            let failed = after_creates(after_backup(start), created);
            apply_steps(failed, rollback_steps(backed_up, link_names(created))).dir == before
        }),
{
    let start = FarmV { dir: before, backup: Map::empty() };
    let bk = after_backup(start);
    assert(bk.backup =~= before);
    let failed = after_creates(bk, created);
    lemma_creates(bk, created);
    lemma_apply_concat(failed, remove_steps(link_names(created)), restore_steps(backed_up));
    lemma_removes(failed, link_names(created));
    let mid = apply_steps(failed, remove_steps(link_names(created)));
    assert(mid.dir.dom() =~= Set::<Seq<char>>::empty());
    assert(mid.backup == before);
    assert forall|n: Seq<char>| backed_up.contains(n) implies #[trigger] mid.backup.contains_key(n) by {
        assert(backed_up.to_set().contains(n));
    }
    lemma_restores(mid, backed_up);
    let fin = apply_steps(mid, restore_steps(backed_up));
    assert forall|n: Seq<char>| #[trigger] fin.dir.contains_key(n) <==> before.contains_key(n) by {
        if backed_up.contains(n) {
            assert(backed_up.to_set().contains(n));
        } else {
            assert(!backed_up.to_set().contains(n));
            assert(!mid.dir.contains_key(n));
        }
    }
    assert forall|n: Seq<char>| #[trigger] before.contains_key(n) implies fin.dir[n] == before[n] by {
        assert(backed_up.to_set().contains(n));
        assert(backed_up.contains(n));
        assert(fin.dir.contains_key(n));
        assert(fin.dir[n] == mid.backup[n]);
    }
    assert(fin.dir =~= before);
}

proof fn lemma_apply_concat(st: FarmV, a: Seq<(bool, Seq<char>)>, b: Seq<(bool, Seq<char>)>)
    ensures
        apply_steps(st, a + b) == apply_steps(apply_steps(st, a), b),
    decreases b.len(),
{
    if b.len() > 0 {
        assert((a + b).drop_last() =~= a + b.drop_last());
        lemma_apply_concat(st, a, b.drop_last());
    } else {
        assert(a + b =~= a);
    }
}

} // verus!
