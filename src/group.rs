//! Filling a group's function table from the files of its directory.
use vstd::prelude::*;
use crate::config::GlobalConfig;
use crate::directive::{add_flags, directive_of, parse_file_flags, process_ext};
use crate::flags::{FnFlag, FlagSet, union_seq};
use crate::fragment::{fragment_run, populate_from_file};
use crate::model::{ErrV, Fun, FunV, InitialPlugin, Plugin, PluginV, ScanningError, err_view, fun_views, insert_result};
use crate::pattern::opt_view;
use crate::scan::{cmd_fun, cmd_origin, fstring_result, process_cmd, process_fstring};
use crate::text::{ends_with, find_char, rfind_char, split_seq, strip_suffix, views};

verus! {

/// A file of a group's directory, as the caller found it on disk.
#[derive(Debug)]
pub struct FileEntry {
    pub path: String,
    pub file_name: String,
    /// A regular file the user may execute.
    pub executable: bool,
    /// The lines of a shell fragment; empty for other files.
    pub lines: Vec<String>,
}

/// The files of the catch-all group are read from its whole directory tree;
/// those of other groups from their directory alone.
pub fn scans_recursively(group_name: &str) -> (r: bool)
    ensures
        r == crate::template::catch_all(group_name@),
{
    crate::text::same_text(group_name, "base")
}

/// The flags every executable of a linked-binary group gets: such functions
/// are linked but not listed.
pub fn linkedbin_default_flags() -> (r: FlagSet)
    ensures
        r@ == seq![FnFlag::NA],
{
    let mut f = FlagSet::new();
    f.insert(FnFlag::NA);
    assert(Seq::<FnFlag>::empty().push(FnFlag::NA) =~= seq![FnFlag::NA]);
    f
}

/// Shell fragments are files whose name ends with `.zshrc`.
pub open spec fn fragment_name(name: Seq<char>) -> bool {
    ends_with(name, ".zshrc"@)
}

pub fn is_fragment_name(name: &str) -> (r: bool)
    ensures
        r == fragment_name(name@),
{
    strip_suffix(name, ".zshrc").is_some()
}

/// Index of the first `c` in `s`.
pub open spec fn first_index(s: Seq<char>, c: char) -> int {
    choose|i: int| 0 <= i < s.len() && s[i] == c && !s.subrange(0, i).contains(c)
}

/// Index of the last `c` in `s`.
pub open spec fn last_index(s: Seq<char>, c: char) -> int {
    choose|i: int| 0 <= i < s.len() && s[i] == c && !s.subrange(i + 1, s.len() as int).contains(c)
}

/// A file name split at its first dot: stem and token string.
pub open spec fn split_name(s: Seq<char>) -> (Seq<char>, Option<Seq<char>>) {
    if s.contains('.') {
        let i = first_index(s, '.');
        (s.subrange(0, i), Some(s.subrange(i + 1, s.len() as int)))
    } else {
        (s, None)
    }
}

proof fn lemma_first_unique(s: Seq<char>, c: char, i: int)
    requires
        0 <= i < s.len() && s[i] == c && !s.subrange(0, i).contains(c),
    ensures
        first_index(s, c) == i,
{
    let j = first_index(s, c);
    if j < i {
        assert(s.subrange(0, i)[j] == c);
    } else if j > i {
        assert(s.subrange(0, j)[i] == c);
    }
}

proof fn lemma_last_unique(s: Seq<char>, c: char, i: int)
    requires
        0 <= i < s.len() && s[i] == c && !s.subrange(i + 1, s.len() as int).contains(c),
    ensures
        last_index(s, c) == i,
{
    let j = last_index(s, c);
    if j < i {
        assert(s.subrange(j + 1, s.len() as int)[i - j - 1] == c);
    } else if j > i {
        assert(s.subrange(i + 1, s.len() as int)[j - i - 1] == c);
    }
}

pub fn split_once_dot(s: &str) -> (r: (String, Option<String>))
    ensures
        (r.0@, opt_view(r.1)) == split_name(s@),
{
    match find_char(s, '.') {
        Some(i) => {
            proof {
                lemma_first_unique(s@, '.', i as int);
            }
            let n = s.unicode_len();
            (String::from_str(s.substring_char(0, i)), Some(String::from_str(s.substring_char(i + 1, n))))
        },
        None => (String::from_str(s), None),
    }
}

/// The flags a fragment's file name gives every directive in it: the
/// comma-separated list after the last dot before `.zshrc`.
pub open spec fn fragment_flags(name: Seq<char>) -> Seq<FnFlag> {
    let stem = name.subrange(0, name.len() - ".zshrc"@.len());
    if stem.contains('.') {
        add_flags(Seq::empty(), split_seq(stem.subrange(last_index(stem, '.') + 1, stem.len() as int), ','))
    } else {
        Seq::empty()
    }
}

pub fn fragment_file_flags(name: &str) -> (r: FlagSet)
    requires
        fragment_name(name@),
    ensures
        r@ == fragment_flags(name@),
{
    let mut flags = FlagSet::new();
    if let Some(stem) = strip_suffix(name, ".zshrc") {
        if let Some(pos) = rfind_char(stem.as_str(), '.') {
            proof {
                lemma_last_unique(stem@, '.', pos as int);
            }
            let n = stem.unicode_len();
            parse_file_flags(stem.as_str().substring_char(pos + 1, n), &mut flags);
        }
    }
    flags
}

/// The view of a file entry.
pub struct EntryV {
    pub path: Seq<char>,
    pub file_name: Seq<char>,
    pub executable: bool,
    pub lines: Seq<Seq<char>>,
}

impl View for FileEntry {
    type V = EntryV;

    open spec fn view(&self) -> EntryV {
        EntryV { path: self.path@, file_name: self.file_name@, executable: self.executable, lines: views(self.lines@) }
    }
}

/// An executable's function: its name's tokens give name, alias, description,
/// flags and bindings; with the literal-command flag the stem is the command.
pub open spec fn executable_step(fns: Seq<FunV>, e: EntryV, default_flags: Seq<FnFlag>, cfg: &GlobalConfig) -> Result<Seq<FunV>, ErrV> {
    let (stem, ext) = split_name(e.file_name);
    let d = directive_of(ext);
    let flags = union_seq(d.flags, default_flags);
    if flags.contains(FnFlag::CMD) {
        let name = match d.name {
            Some(n) => n,
            None => match cfg.name_from_cmd_regex.group(stem, 1) {
                Some(x) => x,
                None => stem,
            },
        };
        insert_result(fns, cmd_fun(name, d.alias, d.desc, stem, flags, d.binds), cmd_origin(Some(e.path), stem, cfg))
    } else {
        fstring_result(fns, stem, Some(e.path), flags, d.binds, cfg.fn_regex, false)
    }
}

/// The effect of one file on a group's functions and sources.
pub open spec fn entry_step(
    acc: (Seq<FunV>, Seq<Seq<char>>),
    e: EntryV,
    pg: &InitialPlugin,
    default_flags: Seq<FnFlag>,
    cfg: &GlobalConfig,
) -> Result<(Seq<FunV>, Seq<Seq<char>>), ErrV> {
    if e.executable {
        match executable_step(acc.0, e, default_flags, cfg) {
            Ok(f) => Ok((f, acc.1)),
            Err(x) => Err(x),
        }
    } else if fragment_name(e.file_name) {
        match fragment_run(acc.0, e.lines, e.path, pg, fragment_flags(e.file_name), cfg) {
            Ok(st) => Ok((st.fns, acc.1.push(e.path))),
            Err(x) => Err(x),
        }
    } else {
        Ok(acc)
    }
}

/// The files read in order.
pub open spec fn entries_run(
    acc: (Seq<FunV>, Seq<Seq<char>>),
    es: Seq<EntryV>,
    pg: &InitialPlugin,
    default_flags: Seq<FnFlag>,
    cfg: &GlobalConfig,
) -> Result<(Seq<FunV>, Seq<Seq<char>>), ErrV>
    decreases es.len(),
{
    if es.len() == 0 {
        Ok(acc)
    } else {
        match entries_run(acc, es.drop_last(), pg, default_flags, cfg) {
            Ok(a) => entry_step(a, es.last(), pg, default_flags, cfg),
            Err(x) => Err(x),
        }
    }
}

fn executable_entry(
    e: &FileEntry,
    fns: &mut Vec<Fun>,
    default_flags: &FlagSet,
    global_config: &GlobalConfig,
) -> (r: Result<(), ScanningError>)
    ensures
        ({
            let s = executable_step(fun_views(old(fns)@), e@, default_flags@, global_config);
            &&& r is Ok ==> s == Ok::<Seq<FunV>, ErrV>(fun_views(final(fns)@))
            &&& r matches Err(e) ==> s == Err::<Seq<FunV>, ErrV>(err_view(e))
        }),
{
    let (stem, ext) = split_once_dot(e.file_name.as_str());
    let d = match &ext {
        Some(x) => process_ext(Some(x.as_str())),
        None => process_ext(None),
    };
    let crate::directive::Directive { name, alias, desc, mut flags, binds, cmd: _ } = d;
    flags.extend(default_flags);
    if flags.contains(FnFlag::CMD) {
        let name = match name {
            Some(n) => n,
            None => match global_config.name_from_cmd_regex.group_of(stem.as_str(), 1) {
                Some(x) => x,
                None => stem.clone(),
            },
        };
        process_cmd(name, Some(e.path.as_str()), alias, desc, stem, flags, binds, fns, global_config)
    } else {
        process_fstring(stem.as_str(), Some(e.path.as_str()), flags, binds, fns, global_config, false)
    }
}

proof fn lemma_entries_fail_on(
    acc: (Seq<FunV>, Seq<Seq<char>>),
    es: Seq<EntryV>,
    i: int,
    pg: &InitialPlugin,
    df: Seq<FnFlag>,
    cfg: &GlobalConfig,
)
    requires
        0 <= i <= es.len(),
        entries_run(acc, es.subrange(0, i), pg, df, cfg) is Err,
    ensures
        entries_run(acc, es, pg, df, cfg) == entries_run(acc, es.subrange(0, i), pg, df, cfg),
    decreases es.len() - i,
{
    if i < es.len() {
        assert(es.subrange(0, i + 1).drop_last() =~= es.subrange(0, i));
        lemma_entries_fail_on(acc, es, i + 1, pg, df, cfg);
    } else {
        assert(es.subrange(0, i) =~= es);
    }
}

/// The views of file entries.
pub open spec fn entry_views(v: Seq<FileEntry>) -> Seq<EntryV> {
    v.map_values(|e: FileEntry| e@)
}

/// Reads the files of a group's directory into its functions and sources.
pub fn populate_entries(
    entries: &Vec<FileEntry>,
    fns: &mut Vec<Fun>,
    sources: &mut Vec<String>,
    pg: &InitialPlugin,
    default_flags: &FlagSet,
    global_config: &GlobalConfig,
) -> (r: Result<(), ScanningError>)
    ensures
        ({
            let s = entries_run((fun_views(old(fns)@), views(old(sources)@)), entry_views(entries@), pg, default_flags@, global_config);
            &&& r is Ok ==> (s matches Ok(a) && fun_views(final(fns)@) == a.0 && views(final(sources)@) == a.1)
            &&& r matches Err(e) ==> s == Err::<(Seq<FunV>, Seq<Seq<char>>), ErrV>(err_view(e))
        }),
{
    let ghost acc0 = (fun_views(fns@), views(sources@));
    let mut i: usize = 0;
    assert(entry_views(entries@).subrange(0, 0) =~= Seq::<EntryV>::empty());
    while i < entries.len()
        invariant
            i <= entries@.len(),
            acc0 == (fun_views(old(fns)@), views(old(sources)@)),
            entries_run(acc0, entry_views(entries@).subrange(0, i as int), pg, default_flags@, global_config)
                == Ok::<(Seq<FunV>, Seq<Seq<char>>), ErrV>((fun_views(fns@), views(sources@))),
        decreases entries@.len() - i,
    {
        assert(entry_views(entries@).subrange(0, i + 1).drop_last() =~= entry_views(entries@).subrange(0, i as int));
        assert(entry_views(entries@).subrange(0, i + 1).last() == entries@[i as int]@);
        let e = &entries[i];
        let res = if e.executable {
            executable_entry(e, fns, default_flags, global_config)
        } else if is_fragment_name(e.file_name.as_str()) {
            let ff = fragment_file_flags(e.file_name.as_str());
            let r = populate_from_file(&e.lines, e.path.as_str(), fns, pg, &ff, global_config);
            if r.is_ok() {
                let ghost before = sources@;
                sources.push(e.path.clone());
                assert(views(sources@) =~= views(before).push(e.path@));
            }
            r
        } else {
            Ok(())
        };
        if res.is_err() {
            proof {
                lemma_entries_fail_on(acc0, entry_views(entries@), i + 1, pg, default_flags@, global_config);
            }
            return res;
        }
        i = i + 1;
    }
    assert(entry_views(entries@).subrange(0, entries@.len() as int) =~= entry_views(entries@));
    Ok(())
}

/// The views of a vector of groups.
pub open spec fn plugin_views(v: Seq<Plugin>) -> Seq<PluginV> {
    v.map_values(|p: Plugin| p@)
}

/// The names of groups.
pub open spec fn plugin_names(v: Seq<PluginV>) -> Seq<Seq<char>> {
    v.map_values(|p: PluginV| p.name)
}

/// Index of the first group named `name`.
pub open spec fn plugin_index(v: Seq<PluginV>, name: Seq<char>) -> int {
    choose|i: int| 0 <= i < v.len() && v[i].name == name && forall|j: int| 0 <= j < i ==> v[j].name != name
}

proof fn lemma_min_named(v: Seq<PluginV>, name: Seq<char>, i: int)
    requires
        0 <= i < v.len(),
        v[i].name == name,
    ensures
        exists|k: int| 0 <= k < v.len() && v[k].name == name && forall|j: int| 0 <= j < k ==> v[j].name != name,
    decreases i,
{
    if exists|j: int| 0 <= j < i && v[j].name == name {
        let j = choose|j: int| 0 <= j < i && v[j].name == name;
        lemma_min_named(v, name, j);
    }
}

/// The index of a group that exists is in range and names it.
pub proof fn lemma_plugin_index(v: Seq<PluginV>, name: Seq<char>)
    requires
        plugin_names(v).contains(name),
    ensures
        0 <= plugin_index(v, name) < v.len(),
        v[plugin_index(v, name)].name == name,
{
    let i = choose|i: int| 0 <= i < plugin_names(v).len() && plugin_names(v)[i] == name;
    lemma_min_named(v, name, i);
}

/// The group a scanned directory starts as.
pub open spec fn fresh_plugin(ip: &InitialPlugin) -> PluginV {
    PluginV {
        name: ip.name@,
        path: ip.path@,
        alias: opt_view(ip.alias),
        desc: opt_view(ip.desc),
        fns: Seq::empty(),
        sources: Seq::empty(),
        fn_template: None,
        fn_table_template: None,
        binds: Seq::empty(),
    }
}

/// Index of the first group named `name`.
pub fn find_plugin(plugins: &Vec<Plugin>, name: &str) -> (r: Option<usize>)
    ensures
        r is None <==> !plugin_names(plugin_views(plugins@)).contains(name@),
        r matches Some(k) ==> k < plugins@.len() && k == plugin_index(plugin_views(plugins@), name@),
{
    let ghost v = plugin_views(plugins@);
    let mut i: usize = 0;
    while i < plugins.len()
        invariant
            i <= plugins@.len(),
            v == plugin_views(plugins@),
            forall|j: int| 0 <= j < i ==> (#[trigger] plugins@[j]).name@ != name@,
        decreases plugins@.len() - i,
    {
        if crate::text::same_text(plugins[i].name.as_str(), name) {
            proof {
                assert(plugin_names(v)[i as int] == name@);
                let k = plugin_index(v, name@);
                assert(v[i as int].name == name@);
                assert(forall|j: int| 0 <= j < i ==> v[j].name != name@);
                if k < i {
                    assert(plugins@[k].name@ == v[k].name);
                } else if k > i {
                    assert(v[i as int].name == name@);
                }
            }
            return Some(i);
        }
        i = i + 1;
    }
    proof {
        if plugin_names(v).contains(name@) {
            let k = choose|k: int| 0 <= k < plugin_names(v).len() && plugin_names(v)[k] == name@;
            assert(plugins@[k].name@ == name@);
        }
    }
    None
}

/// The groups `v` after the group `ip` (created unless one of that name
/// exists) has read the files `es`.
#[verifier::opaque]
pub open spec fn populated(
    v: Seq<PluginV>,
    ip: &InitialPlugin,
    es: Seq<EntryV>,
    default_flags: Seq<FnFlag>,
    cfg: &GlobalConfig,
) -> Result<Seq<PluginV>, ErrV> {
    let exists_already = plugin_names(v).contains(ip.name@);
    let k = plugin_index(v, ip.name@);
    let base = if exists_already { v[k] } else { fresh_plugin(ip) };
    match entries_run((base.fns, base.sources), es, ip, default_flags, cfg) {
        Ok(a) => Ok(if exists_already {
            v.update(k, PluginV { fns: a.0, sources: a.1, ..base })
        } else {
            v.push(PluginV { fns: a.0, sources: a.1, ..base })
        }),
        Err(x) => Err(x),
    }
}

proof fn lemma_populated_is(
    v: Seq<PluginV>,
    ip: &InitialPlugin,
    es: Seq<EntryV>,
    df: Seq<FnFlag>,
    cfg: &GlobalConfig,
    base: PluginV,
    run: Result<(Seq<FunV>, Seq<Seq<char>>), ErrV>,
)
    requires
        base == (if plugin_names(v).contains(ip.name@) { v[plugin_index(v, ip.name@)] } else { fresh_plugin(ip) }),
        run == entries_run((base.fns, base.sources), es, ip, df, cfg),
    ensures
        run matches Err(e) ==> populated(v, ip, es, df, cfg) == Err::<Seq<PluginV>, ErrV>(e),
        run matches Ok(a) ==> populated(v, ip, es, df, cfg) == Ok::<Seq<PluginV>, ErrV>(
            if plugin_names(v).contains(ip.name@) {
                v.update(plugin_index(v, ip.name@), PluginV { fns: a.0, sources: a.1, ..base })
            } else {
                v.push(PluginV { fns: a.0, sources: a.1, ..base })
            }),
{
    reveal(populated);
}

/// The group that `ip` reads its files into: the one of its name, or a new one.
pub open spec fn base_of(v: Seq<PluginV>, ip: &InitialPlugin) -> PluginV {
    if plugin_names(v).contains(ip.name@) { v[plugin_index(v, ip.name@)] } else { fresh_plugin(ip) }
}

fn group_slot(plugins: &mut Vec<Plugin>, ip: &InitialPlugin) -> (k: usize)
    ensures
        k < final(plugins)@.len(),
        plugin_views(final(plugins)@)[k as int] == base_of(plugin_views(old(plugins)@), ip),
        plugin_names(plugin_views(old(plugins)@)).contains(ip.name@) ==> (k == plugin_index(plugin_views(old(plugins)@), ip.name@)
            && final(plugins)@ == old(plugins)@),
        !plugin_names(plugin_views(old(plugins)@)).contains(ip.name@) ==> (k == old(plugins)@.len()
            && plugin_views(final(plugins)@) == plugin_views(old(plugins)@).push(fresh_plugin(ip))),
{
    let ghost v = plugin_views(plugins@);
    match find_plugin(plugins, ip.name.as_str()) {
        Some(k) => {
            assert(v[k as int] == plugins@[k as int]@);
            k
        },
        None => {
            let fresh = ip.duplicate().to_plugin(Vec::new());
            assert(fun_views(Seq::<Fun>::empty()) =~= Seq::<FunV>::empty());
            plugins.push(fresh);
            assert(plugin_views(plugins@) =~= v.push(fresh_plugin(ip)));
            plugins.len() - 1
        },
    }
}

/// Creates the group `ip` unless one of that name exists, then reads the
/// files of its directory into it; `default_flags` are added to every
/// executable's flags.
#[verifier::spinoff_prover]
#[verifier::rlimit(100)]
pub fn populate_plugin(
    plugins: &mut Vec<Plugin>,
    ip: &InitialPlugin,
    entries: &Vec<FileEntry>,
    default_flags: &FlagSet,
    global_config: &GlobalConfig,
) -> (r: Result<(), ScanningError>)
    ensures
        r is Ok ==> populated(plugin_views(old(plugins)@), ip, entry_views(entries@), default_flags@, global_config)
            == Ok::<Seq<PluginV>, ErrV>(plugin_views(final(plugins)@)),
        r matches Err(e) ==> populated(plugin_views(old(plugins)@), ip, entry_views(entries@), default_flags@, global_config)
            == Err::<Seq<PluginV>, ErrV>(err_view(e)),
{
    let ghost v = plugin_views(plugins@);
    let k = group_slot(plugins, ip);
    let ghost slot = plugin_views(plugins@);
    let mut pg = plugins.remove(k);
    assert(plugin_views(plugins@) =~= slot.remove(k as int));
    let res = populate_entries(entries, &mut pg.fns, &mut pg.sources, ip, default_flags, global_config);
    let ghost newp = pg@;
    let ghost mid = plugin_views(plugins@);
    plugins.insert(k, pg);
    assert(plugin_views(plugins@) =~= mid.insert(k as int, newp));
    proof {
        let base = base_of(v, ip);
        let run = entries_run((base.fns, base.sources), entry_views(entries@), ip, default_flags@, global_config);
        lemma_populated_is(v, ip, entry_views(entries@), default_flags@, global_config, base, run);
        if res is Ok {
            let a = run->Ok_0;
            assert(newp == PluginV { fns: a.0, sources: a.1, ..base });
            if plugin_names(v).contains(ip.name@) {
                assert(slot == v);
                assert(mid.insert(k as int, newp) =~= v.update(plugin_index(v, ip.name@), newp));
            } else {
                assert(mid =~= v);
                assert(mid.insert(k as int, newp) =~= v.push(newp));
            }
        }
    }
    res
}

proof fn lemma_entries_unique(
    acc: (Seq<FunV>, Seq<Seq<char>>),
    es: Seq<EntryV>,
    pg: &InitialPlugin,
    df: Seq<FnFlag>,
    cfg: &GlobalConfig,
)
    requires
        crate::model::names_unique(acc.0),
        entries_run(acc, es, pg, df, cfg) is Ok,
    ensures
        crate::model::names_unique(entries_run(acc, es, pg, df, cfg)->Ok_0.0),
    decreases es.len(),
{
    crate::model::lemma_insert_unique();
    crate::scan::lemma_fstring_unique();
    if es.len() > 0 {
        lemma_entries_unique(acc, es.drop_last(), pg, df, cfg);
        let a = entries_run(acc, es.drop_last(), pg, df, cfg)->Ok_0;
        let e = es.last();
        if !e.executable && fragment_name(e.file_name) {
            crate::fragment::lemma_fragment_unique(a.0, e.lines, e.path, pg, fragment_flags(e.file_name), cfg);
        }
    }
}

/// Reading a group's files keeps the function names of every group distinct.
pub proof fn lemma_populated_unique(
    v: Seq<PluginV>,
    ip: &InitialPlugin,
    es: Seq<EntryV>,
    df: Seq<FnFlag>,
    cfg: &GlobalConfig,
)
    requires
        crate::model::tables_unique(v),
        populated(v, ip, es, df, cfg) is Ok,
    ensures
        crate::model::tables_unique(populated(v, ip, es, df, cfg)->Ok_0),
{
    reveal(populated);
    let exists_already = plugin_names(v).contains(ip.name@);
    let k = plugin_index(v, ip.name@);
    if exists_already {
        lemma_plugin_index(v, ip.name@);
    }
    let base = if exists_already { v[k] } else { fresh_plugin(ip) };
    assert(crate::model::names_unique(base.fns));
    lemma_entries_unique((base.fns, base.sources), es, ip, df, cfg);
}

} // verus!
