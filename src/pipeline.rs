//! The model of a run, built from what the scanner found and the settings
//! document: groups filled from their files, settings applied, includes
//! flattened, group references resolved.
use vstd::prelude::*;
use crate::config::GlobalConfig;
use crate::flags::{FlagSet, FnFlag};
use crate::group::{FileEntry, entry_views, linkedbin_default_flags, plugin_views, populate_plugin, populated};
use crate::merge::{
    RawPlugin, finalize_plugins, finalized, flatten_all, flatten_includes, merge_settings,
    missing_err, raw_views, refs_resolve, settings_run,
};
use crate::model::{ErrV, InitialPlugin, Plugin, PluginV, ScanningError, err_view, tables_unique};
use crate::text::views;

verus! {

/// A scanned group with the files of its directory.
#[derive(Debug)]
pub struct GroupFiles {
    pub group: InitialPlugin,
    pub entries: Vec<FileEntry>,
}

/// The groups `v` after each of `gs` has read its files, in order.
pub open spec fn populate_all(
    v: Seq<PluginV>,
    gs: Seq<GroupFiles>,
    default_flags: Seq<FnFlag>,
    cfg: &GlobalConfig,
) -> Result<Seq<PluginV>, ErrV>
    decreases gs.len(),
{
    if gs.len() == 0 {
        Ok(v)
    } else {
        match populate_all(v, gs.drop_last(), default_flags, cfg) {
            Ok(w) => populated(w, &gs.last().group, entry_views(gs.last().entries@), default_flags, cfg),
            Err(e) => Err(e),
        }
    }
}

proof fn lemma_populate_fails(v: Seq<PluginV>, gs: Seq<GroupFiles>, i: int, df: Seq<FnFlag>, cfg: &GlobalConfig)
    requires
        0 <= i <= gs.len(),
        populate_all(v, gs.subrange(0, i), df, cfg) is Err,
    ensures
        populate_all(v, gs, df, cfg) == populate_all(v, gs.subrange(0, i), df, cfg),
    decreases gs.len() - i,
{
    if i < gs.len() {
        assert(gs.subrange(0, i + 1).drop_last() =~= gs.subrange(0, i));
        lemma_populate_fails(v, gs, i + 1, df, cfg);
    } else {
        assert(gs.subrange(0, i) =~= gs);
    }
}

fn populate_groups(
    plugins: &mut Vec<Plugin>,
    gs: &Vec<GroupFiles>,
    default_flags: &FlagSet,
    global_config: &GlobalConfig,
) -> (r: Result<(), ScanningError>)
    ensures
        r is Ok ==> populate_all(plugin_views(old(plugins)@), gs@, default_flags@, global_config)
            == Ok::<Seq<PluginV>, ErrV>(plugin_views(final(plugins)@)),
        r matches Err(e) ==> populate_all(plugin_views(old(plugins)@), gs@, default_flags@, global_config)
            == Err::<Seq<PluginV>, ErrV>(err_view(e)),
{
    let ghost v0 = plugin_views(plugins@);
    let mut i: usize = 0;
    assert(gs@.subrange(0, 0) =~= Seq::<GroupFiles>::empty());
    while i < gs.len()
        invariant
            i <= gs@.len(),
            v0 == plugin_views(old(plugins)@),
            populate_all(v0, gs@.subrange(0, i as int), default_flags@, global_config) == Ok::<Seq<PluginV>, ErrV>(plugin_views(plugins@)),
        decreases gs@.len() - i,
    {
        assert(gs@.subrange(0, i + 1).drop_last() =~= gs@.subrange(0, i as int));
        assert(gs@.subrange(0, i + 1).last() == gs@[i as int]);
        let g = &gs[i];
        match populate_plugin(plugins, &g.group, &g.entries, default_flags, global_config) {
            Ok(()) => {},
            Err(e) => {
                proof {
                    lemma_populate_fails(v0, gs@, i + 1, default_flags@, global_config);
                }
                return Err(e);
            },
        }
        i = i + 1;
    }
    assert(gs@.subrange(0, i as int) =~= gs@);
    Ok(())
}

proof fn lemma_populate_all_unique(v: Seq<PluginV>, gs: Seq<GroupFiles>, df: Seq<FnFlag>, cfg: &GlobalConfig)
    requires
        tables_unique(v),
        populate_all(v, gs, df, cfg) is Ok,
    ensures
        tables_unique(populate_all(v, gs, df, cfg)->Ok_0),
    decreases gs.len(),
{
    if gs.len() > 0 {
        lemma_populate_all_unique(v, gs.drop_last(), df, cfg);
        let w = populate_all(v, gs.drop_last(), df, cfg)->Ok_0;
        crate::group::lemma_populated_unique(w, &gs.last().group, entry_views(gs.last().entries@), df, cfg);
    }
}

/// In the model of a run, the functions of each group have distinct names.
pub proof fn lemma_model_unique(groups: Seq<GroupFiles>, linked: Seq<GroupFiles>, raws: Seq<RawPlugin>, cfg: &GlobalConfig)
    requires
        model_of(groups, linked, raws, cfg) is Ok,
    ensures
        tables_unique(model_of(groups, linked, raws, cfg)->Ok_0.0),
{
    lemma_populate_all_unique(Seq::empty(), groups, Seq::empty(), cfg);
    let v1 = populate_all(Seq::empty(), groups, Seq::empty(), cfg)->Ok_0;
    lemma_populate_all_unique(v1, linked, seq![FnFlag::NA], cfg);
    let v2 = populate_all(v1, linked, seq![FnFlag::NA], cfg)->Ok_0;
    crate::merge::lemma_settings_unique(v2, raw_views(raws));
    let acc = settings_run(v2, raw_views(raws))->Ok_0;
    crate::merge::lemma_flatten_unique(acc.0, acc.0.len());
    let v4 = flatten_all(acc.0)->Ok_0;
    crate::merge::lemma_finalized_unique(v4);
}

/// The model of a run as views, with the names of settings entries that
/// match no scanned group; the error of the first stage that fails.
pub open spec fn model_of(
    groups: Seq<GroupFiles>,
    linked: Seq<GroupFiles>,
    raws: Seq<RawPlugin>,
    cfg: &GlobalConfig,
) -> Result<(Seq<PluginV>, Seq<Seq<char>>), ErrV> {
    match populate_all(Seq::empty(), groups, Seq::empty(), cfg) {
        Err(e) => Err(e),
        Ok(v1) => match populate_all(v1, linked, seq![FnFlag::NA], cfg) {
            Err(e) => Err(e),
            Ok(v2) => match settings_run(v2, raw_views(raws)) {
                Err(e) => Err(e),
                Ok(acc) => match flatten_all(acc.0) {
                    Err(e) => Err(e),
                    Ok(v4) => if refs_resolve(v4) { Ok((finalized(v4), acc.1)) } else { Err(missing_err(v4)) },
                },
            },
        },
    }
}

/// Builds the model: the scanned groups read their files, then the
/// linked-binary groups (whose functions are not listed); the settings
/// document is applied, includes are flattened and group references
/// resolved. Also hands back the settings entries that name no group.
pub fn build_model(
    groups: &Vec<GroupFiles>,
    linked: &Vec<GroupFiles>,
    raws: Vec<RawPlugin>,
    global_config: &GlobalConfig,
) -> (r: Result<(Vec<Plugin>, Vec<String>), ScanningError>)
    ensures
        ({
            let m = model_of(groups@, linked@, raws@, global_config);
            &&& r matches Ok(res) ==> (m matches Ok(mv) && plugin_views(res.0@) == mv.0 && views(res.1@) == mv.1)
            &&& r matches Err(e) ==> m == Err::<(Seq<PluginV>, Seq<Seq<char>>), ErrV>(err_view(e))
            &&& r matches Ok(res) ==> tables_unique(plugin_views(res.0@))
        }),
{
    let mut plugins: Vec<Plugin> = Vec::new();
    assert(plugin_views(plugins@) =~= Seq::<PluginV>::empty());
    populate_groups(&mut plugins, groups, &FlagSet::new(), global_config)?;
    populate_groups(&mut plugins, linked, &linkedbin_default_flags(), global_config)?;
    let unknown = merge_settings(&mut plugins, raws)?;
    flatten_includes(&mut plugins)?;
    finalize_plugins(&mut plugins)?;
    proof {
        lemma_model_unique(groups@, linked@, raws@, global_config);
    }
    Ok((plugins, unknown))
}

} // verus!
