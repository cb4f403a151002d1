//! Classification of directories and insertion of discovered functions.
use vstd::prelude::*;
use crate::config::GlobalConfig;
use crate::flags::FlagSet;
use crate::model::{
    ErrV, Fun, FunV, InitialPlugin, ScanningError, err_view, fun_views, insert_fun, insert_result,
    or_empty,
};
use crate::pattern::{Pattern, opt_view};
use crate::text::{replace, replace_all, views};

verus! {

/// The text of an optional borrowed string.
pub open spec fn ostr(o: Option<&str>) -> Option<Seq<char>> {
    match o {
        Some(s) => Some(s@),
        None => None,
    }
}

/// A set text, unless it is empty.
pub open spec fn nonempty(o: Option<Seq<char>>) -> Option<Seq<char>> {
    match o {
        Some(s) => if s.len() > 0 { Some(s) } else { None },
        None => None,
    }
}

/// Every occurrence of `pat` replaced, unless `pat` is empty.
pub open spec fn rep_if(s: Seq<char>, pat: Seq<char>, r: Seq<char>) -> Seq<char> {
    if pat.len() == 0 { s } else { replace_all(s, pat, r) }
}

pub fn replace_if(s: &str, pat: &str, r: &str) -> (out: String)
    ensures
        out@ == rep_if(s@, pat@, r@),
{
    if pat.unicode_len() == 0 {
        String::from_str(s)
    } else {
        replace(s, pat, r)
    }
}

/// A path as written into generated text: the managed directory, the root
/// directory and the home directory are written as variables.
pub open spec fn path_text(p: Seq<char>, path_dir: Seq<char>, root_dir: Seq<char>, home: Seq<char>) -> Seq<char> {
    rep_if(rep_if(rep_if(p, path_dir, "$FZS_PATH_DIR"@), root_dir, "$FZS_ROOT_DIR"@), home, "$HOME"@)
}

pub fn pathbuf_to_string(path: &str, global_config: &GlobalConfig) -> (r: String)
    ensures
        r@ == path_text(path@, global_config.path_dir@, global_config.root_dir@, global_config.home@),
{
    let a = replace_if(path, global_config.path_dir.as_str(), "$FZS_PATH_DIR");
    let b = replace_if(a.as_str(), global_config.root_dir.as_str(), "$FZS_ROOT_DIR");
    replace_if(b.as_str(), global_config.home.as_str(), "$HOME")
}

/// A path with the home directory written as `$HOME`.
pub fn pathbuf_to_string_basic(path: &str, global_config: &GlobalConfig) -> (r: String)
    ensures
        r@ == rep_if(path@, global_config.home@, "$HOME"@),
{
    replace_if(path, global_config.home.as_str(), "$HOME")
}

/// What a directory was found to be.
#[derive(Debug)]
pub enum Scanned {
    ScannedPlugin(InitialPlugin),
    ScannedLinkedbin(InitialPlugin),
    Nothing,
}

fn group_text(p: &Pattern, text: &str, i: usize) -> (r: String)
    ensures
        r@ == or_empty(p.group(text@, i as nat)),
{
    match p.group_of(text, i) {
        Some(s) => s,
        None => String::new(),
    }
}

fn group_nonempty(p: &Pattern, text: &str, i: usize) -> (r: Option<String>)
    ensures
        opt_view(r) == nonempty(p.group(text@, i as nat)),
{
    match p.group_of(text, i) {
        Some(s) => if s.unicode_len() > 0 { Some(s) } else { None },
        None => None,
    }
}

/// Classifies a directory by its name: a group where the group pattern
/// matches (captures name, alias, description), else a linked-binary group
/// where that pattern matches (its alias is always empty), else nothing.
pub fn plugin_from_dir(dir_name: &str, path: &str, global_config: &GlobalConfig) -> (r: Scanned)
    ensures
        ({
            let pr = global_config.plugin_regex;
            let lr = global_config.linkedbin_regex;
            let t = dir_name@;
            if pr.matches(t) {
                r matches Scanned::ScannedPlugin(ip) && ip.name@ == or_empty(pr.group(t, 1))
                    && ip.path@ == path@ && opt_view(ip.alias) == nonempty(pr.group(t, 2))
                    && opt_view(ip.desc) == pr.group(t, 3)
            } else if lr.matches(t) {
                r matches Scanned::ScannedLinkedbin(ip) && ip.name@ == or_empty(lr.group(t, 1))
                    && ip.path@ == path@ && opt_view(ip.alias) == Some(Seq::<char>::empty())
                    && opt_view(ip.desc) == lr.group(t, 3)
            } else {
                r is Nothing
            }
        }),
{
    let pr = &global_config.plugin_regex;
    let lr = &global_config.linkedbin_regex;
    if pr.group_of(dir_name, 0).is_some() {
        Scanned::ScannedPlugin(InitialPlugin {
            name: group_text(pr, dir_name, 1),
            path: String::from_str(path),
            alias: group_nonempty(pr, dir_name, 2),
            desc: pr.group_of(dir_name, 3),
        })
    } else if lr.group_of(dir_name, 0).is_some() {
        Scanned::ScannedLinkedbin(InitialPlugin {
            name: group_text(lr, dir_name, 1),
            path: String::from_str(path),
            alias: Some(String::new()),
            desc: lr.group_of(dir_name, 3),
        })
    } else {
        Scanned::Nothing
    }
}

/// The names of scanned groups.
pub open spec fn initial_names(v: Seq<InitialPlugin>) -> Seq<Seq<char>> {
    v.map_values(|p: InitialPlugin| p.name@)
}

fn find_initial(v: &Vec<InitialPlugin>, name: &str) -> (r: bool)
    ensures
        r == initial_names(v@).contains(name@),
{
    let mut i: usize = 0;
    while i < v.len()
        invariant
            i <= v@.len(),
            forall|j: int| 0 <= j < i ==> (#[trigger] v@[j]).name@ != name@,
        decreases v@.len() - i,
    {
        if crate::text::same_text(v[i].name.as_str(), name) {
            assert(initial_names(v@)[i as int] == name@);
            return true;
        }
        i = i + 1;
    }
    proof {
        if initial_names(v@).contains(name@) {
            let k = choose|k: int| 0 <= k < initial_names(v@).len() && initial_names(v@)[k] == name@;
            assert(v@[k].name@ == name@);
        }
    }
    false
}

/// Records a classified directory: groups by unique name, linked-binary
/// groups in order, repeats allowed.
pub fn register_scanned(
    plugins: &mut Vec<InitialPlugin>,
    linkedbins: &mut Vec<InitialPlugin>,
    scanned: Scanned,
) -> (r: Result<(), ScanningError>)
    ensures
        match scanned {
            Scanned::ScannedPlugin(ip) => {
                &&& r is Err <==> initial_names(old(plugins)@).contains(ip.name@)
                &&& r matches Err(e) ==> e matches ScanningError::DuplicatePluginIdentifier(n) && n@ == ip.name@
                &&& r is Err ==> final(plugins)@ == old(plugins)@
                &&& r is Ok ==> final(plugins)@ == old(plugins)@.push(ip)
                &&& final(linkedbins)@ == old(linkedbins)@
            },
            Scanned::ScannedLinkedbin(ip) => {
                &&& r is Ok
                &&& final(plugins)@ == old(plugins)@
                &&& final(linkedbins)@ == old(linkedbins)@.push(ip)
            },
            Scanned::Nothing => {
                &&& r is Ok
                &&& final(plugins)@ == old(plugins)@
                &&& final(linkedbins)@ == old(linkedbins)@
            },
        },
{
    match scanned {
        Scanned::ScannedPlugin(ip) => {
            if find_initial(plugins, ip.name.as_str()) {
                Err(ScanningError::DuplicatePluginIdentifier(ip.name))
            } else {
                plugins.push(ip);
                Ok(())
            }
        },
        Scanned::ScannedLinkedbin(ip) => {
            linkedbins.push(ip);
            Ok(())
        },
        Scanned::Nothing => Ok(()),
    }
}

/// Where a literal command came from: its file, as written into generated
/// text, or the command itself.
pub open spec fn cmd_origin(path: Option<Seq<char>>, cmd: Seq<char>, cfg: &GlobalConfig) -> Seq<char> {
    match path {
        Some(p) => path_text(p, cfg.path_dir@, cfg.root_dir@, cfg.home@),
        None => cmd,
    }
}

/// The function a literal command declares.
pub open spec fn cmd_fun(
    name: Seq<char>,
    alias: Option<Seq<char>>,
    desc: Option<Seq<char>>,
    cmd: Seq<char>,
    flags: Seq<crate::flags::FnFlag>,
    binds: Seq<Seq<char>>,
) -> FunV {
    FunV { name, bin: None, alias, desc, cmd: Some(cmd), flags, binds, fstring: None }
}

/// Registers a function with a literal command; a taken name is an error
/// that names the function and both origins.
pub fn process_cmd(
    name: String,
    path: Option<&str>,
    alias: Option<String>,
    desc: Option<String>,
    cmd: String,
    flags: FlagSet,
    binds: Vec<String>,
    fns: &mut Vec<Fun>,
    global_config: &GlobalConfig,
) -> (r: Result<(), ScanningError>)
    ensures
        ({
            let f = cmd_fun(name@, opt_view(alias), opt_view(desc), cmd@, flags@, views(binds@));
            let s = insert_result(fun_views(old(fns)@), f, cmd_origin(ostr(path), cmd@, global_config));
            &&& r is Ok ==> s == Ok::<Seq<FunV>, ErrV>(fun_views(final(fns)@))
            &&& r matches Err(e) ==> s == Err::<Seq<FunV>, ErrV>(err_view(e))
            &&& r is Err ==> final(fns)@ == old(fns)@
        }),
{
    let new_origin = match path {
        Some(p) => pathbuf_to_string(p, global_config),
        None => cmd.clone(),
    };
    let fun = Fun {
        name,
        bin: None,
        alias,
        flags,
        binds,
        cmd: Some(cmd),
        desc,
        fstring: None,
    };
    insert_fun(fns, fun, new_origin.as_str())
}

/// The function a declaration `fstring` names through the function pattern.
pub open spec fn fstring_fun(
    fstring: Seq<char>,
    path: Option<Seq<char>>,
    flags: Seq<crate::flags::FnFlag>,
    binds: Seq<Seq<char>>,
    fn_regex: Pattern,
    store_fstring: bool,
) -> FunV {
    FunV {
        name: or_empty(fn_regex.group(fstring, 1)),
        bin: path,
        alias: nonempty(fn_regex.group(fstring, 2)),
        desc: nonempty(fn_regex.group(fstring, 3)),
        cmd: None,
        flags,
        binds,
        fstring: if store_fstring { Some(fstring) } else { None },
    }
}

/// Where a declaration came from: its file, else the declaration if kept.
pub open spec fn fstring_origin(fstring: Seq<char>, path: Option<Seq<char>>, store_fstring: bool) -> Seq<char> {
    match path {
        Some(p) => p,
        None => if store_fstring { fstring } else { "Neither fstring nor path available"@ },
    }
}

/// Registration through the function pattern, as a view: nothing where the
/// pattern does not match `fstring`, an invalid-pattern error where it
/// captures no name, else the insertion of the function it names.
pub open spec fn fstring_result(
    fns: Seq<FunV>,
    fstring: Seq<char>,
    path: Option<Seq<char>>,
    flags: Seq<crate::flags::FnFlag>,
    binds: Seq<Seq<char>>,
    re: Pattern,
    store_fstring: bool,
) -> Result<Seq<FunV>, ErrV> {
    if !re.matches(fstring) {
        Ok(fns)
    } else if re.group(fstring, 1) is None {
        Err(ErrV::InvalidPattern(re.src()))
    } else {
        insert_result(fns, fstring_fun(fstring, path, flags, binds, re, store_fstring), fstring_origin(fstring, path, store_fstring))
    }
}

/// Registers the function that the function pattern finds in `fstring`
/// (name, alias, description); a text the pattern does not match is skipped.
pub fn process_fstring(
    fstring: &str,
    path: Option<&str>,
    flags: FlagSet,
    binds: Vec<String>,
    fns: &mut Vec<Fun>,
    global_config: &GlobalConfig,
    store_fstring: bool,
) -> (r: Result<(), ScanningError>)
    ensures
        ({
            let s = fstring_result(fun_views(old(fns)@), fstring@, ostr(path), flags@, views(binds@), global_config.fn_regex, store_fstring);
            &&& r is Ok ==> s == Ok::<Seq<FunV>, ErrV>(fun_views(final(fns)@))
            &&& r matches Err(e) ==> s == Err::<Seq<FunV>, ErrV>(err_view(e))
            &&& r is Err ==> final(fns)@ == old(fns)@
        }),
{
    let re = &global_config.fn_regex;
    if re.group_of(fstring, 0).is_none() {
        return Ok(());
    }
    let name = match re.group_of(fstring, 1) {
        Some(n) => n,
        None => return Err(ScanningError::InvalidPattern(re.source())),
    };
    let fs = if store_fstring { Some(String::from_str(fstring)) } else { None };
    let new_origin = match path {
        Some(p) => String::from_str(p),
        None => if store_fstring {
            String::from_str(fstring)
        } else {
            String::from_str("Neither fstring nor path available")
        },
    };
    let fun = Fun {
        name,
        bin: match path {
            Some(p) => Some(String::from_str(p)),
            None => None,
        },
        alias: group_nonempty(re, fstring, 2),
        desc: group_nonempty(re, fstring, 3),
        flags,
        cmd: None,
        binds,
        fstring: fs,
    };
    insert_fun(fns, fun, new_origin.as_str())
}

/// Registration through the function pattern keeps the names of a table distinct.
pub proof fn lemma_fstring_unique()
    ensures
        forall|fns: Seq<FunV>, fs: Seq<char>, path: Option<Seq<char>>, flags: Seq<crate::flags::FnFlag>,
            binds: Seq<Seq<char>>, re: Pattern, store: bool|
            #[trigger] fstring_result(fns, fs, path, flags, binds, re, store) is Ok && crate::model::names_unique(fns)
            ==> crate::model::names_unique(fstring_result(fns, fs, path, flags, binds, re, store)->Ok_0),
{
    crate::model::lemma_insert_unique();
}

} // verus!
