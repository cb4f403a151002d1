//! The process-wide configuration, built once and then only read.
use vstd::prelude::*;
use crate::model::ScanningError;
use crate::pattern::{Pattern, opt_view, regex_compiles};
use crate::scan::rep_if;
use crate::text::{cat, ends_with, starts_with, views};

verus! {

/// Compiled patterns, templates, paths and default key bindings.
#[derive(Debug)]
pub struct GlobalConfig {
    pub root_dir: String,
    pub path_dir: String,
    pub config_dir: String,
    pub data_dir: String,
    /// The home directory, written as `$HOME` in generated text.
    pub home: String,
    /// Group directory names: captures name, alias and description.
    pub plugin_regex: Pattern,
    /// Linked-binary directory names: captures name and, as group 3, description.
    pub linkedbin_regex: Pattern,
    /// Function file stems: captures name, alias and description.
    pub fn_regex: Pattern,
    /// Extracts a function name from a command (group 1).
    pub name_from_cmd_regex: Pattern,
    /// A shell function definition `$name (` in a fragment (group 1).
    pub func_regex: Pattern,
    /// A command invocation `name (` in a fragment (group 1).
    pub cmd_regex: Pattern,
    /// A shell alias definition in a fragment: group 1 the name, group 2 the value.
    pub alias_regex: Pattern,
    pub name_from_alias_template: String,
    pub selector_widget_template: String,
    pub fn_template: String,
    pub fn_table_template: String,
    pub all_fn_table_template: String,
    pub name_when_widget_template: String,
    pub template_file: String,
    pub init_file: String,
    pub fzs_name: String,
    /// Relative: a file per group in its directory; absolute: one shared file.
    pub generated_file: String,
    pub provides_file: String,
    pub plugin_selector_binds: Vec<String>,
    pub all_fn_selector_binds: Vec<String>,
    pub fzs_fzf_dir_cmd: String,
    pub fzs_fzf_pager_cmd: String,
    pub fzs_fzf_base_preview: String,
}

/// A path that starts at the root.
pub open spec fn is_absolute(p: Seq<char>) -> bool {
    starts_with(p, "/"@)
}

pub fn path_is_absolute(p: &str) -> (r: bool)
    ensures
        r == is_absolute(p@),
{
    let r = crate::text::occurs_at(p, 0, "/");
    assert(p@.subrange(0, p@.len() as int) =~= p@);
    r
}

/// `b` relative to `a`; an absolute `b` stands alone.
pub open spec fn join_path(a: Seq<char>, b: Seq<char>) -> Seq<char> {
    if is_absolute(b) || a.len() == 0 {
        b
    } else if ends_with(a, "/"@) {
        a + b
    } else {
        a + "/"@ + b
    }
}

pub fn path_join(a: &str, b: &str) -> (r: String)
    ensures
        r@ == join_path(a@, b@),
{
    if path_is_absolute(b) || a.unicode_len() == 0 {
        String::from_str(b)
    } else if crate::text::strip_suffix(a, "/").is_some() {
        cat(a, b)
    } else {
        cat(&cat(a, "/"), b)
    }
}

/// The `settings` table of the settings document: every entry optional.
#[derive(Debug, Default)]
pub struct RawGlobalConfig {
    pub plugin_regex_str: Option<String>,
    pub linkedbin_regex_str: Option<String>,
    pub fn_regex_str: Option<String>,
    pub name_from_cmd_regex_str: Option<String>,
    pub name_from_alias_template: Option<String>,
    pub selector_widget_template: Option<String>,
    pub fn_template: Option<String>,
    pub fn_table_template: Option<String>,
    pub all_fn_table_template: Option<String>,
    pub name_when_widget_template: Option<String>,
    pub fzs_name: Option<String>,
    pub generated_file: Option<String>,
    pub provides_file: Option<String>,
    pub plugin_selector_binds: Option<Vec<String>>,
    pub all_fn_selector_binds: Option<Vec<String>>,
    pub fzf_dir_cmd: Option<String>,
    pub fzf_pager_cmd: Option<String>,
    pub fzf_base_preview: Option<String>,
}

/// The directories of a run, already located and created.
#[derive(Debug)]
pub struct ConfigDirs {
    pub root_dir: String,
    pub path_dir: String,
    pub config_dir: String,
    pub data_dir: String,
    pub home: String,
}

pub open spec fn default_plugin_regex() -> Seq<char> {
    r"^([a-zA-Z0-9]+)(?:_([a-zA-Z0-9-]+))?(?:_([a-zA-Z0-9-]+))?_select$"@
}

pub open spec fn default_fn_regex() -> Seq<char> {
    r"^(_*[a-zA-Z0-9-]+)(?:_([a-zA-Z0-9-]*))?(?:_([a-zA-Z0-9-\(\)_ ]+))?(?:\.[a-zA-Z0-9,\. ]+)?$"@
}

pub open spec fn default_linkedbin_regex() -> Seq<char> {
    r"^_([a-zA-Z0-9-]+)()(?:_([a-zA-Z0-9-]+))?(?:\.[a-zA-Z0-9\(\)\,\+\^]+)?$"@
}

pub open spec fn default_name_from_cmd_regex() -> Seq<char> {
    r"^(?:_*[a-zA-Z0-9-]+\.)?(.*)$"@
}

pub open spec fn func_regex_src() -> Seq<char> {
    r"(?:^| )\$([a-zA-Z0-9_]+)\s*\("@
}

pub open spec fn cmd_regex_src() -> Seq<char> {
    r"(?:^| )([\$a-zA-Z0-9_.\-\&]+)\s*\("@
}

pub open spec fn alias_regex_src() -> Seq<char> {
    r#"alias ([\$a-zA-Z0-9_.\-\&]+)=['"]?([^'"]*)"#@
}

/// The given value, or the default.
pub open spec fn or_default(o: Option<Seq<char>>, d: Seq<char>) -> Seq<char> {
    match o {
        Some(v) => v,
        None => d,
    }
}

/// `$HOME` in a configured path stands for the home directory.
pub open spec fn expand_home(p: Seq<char>, home: Seq<char>) -> Seq<char> {
    rep_if(p, "$HOME"@, home)
}

fn given_or(o: Option<String>, d: &str) -> (r: String)
    ensures
        r@ == or_default(opt_view(o), d@),
{
    match o {
        Some(v) => v,
        None => String::from_str(d),
    }
}

fn compile(src: String) -> (r: Result<Pattern, ScanningError>)
    ensures
        r is Ok <==> regex_compiles(src@),
        r matches Ok(p) ==> p.src() == src@,
        r matches Err(e) ==> e matches ScanningError::InvalidPattern(s) && s@ == src@,
{
    match Pattern::compile(src.as_str()) {
        Ok(p) => Ok(p),
        Err(s) => Err(ScanningError::InvalidPattern(s)),
    }
}

fn compile_fixed(src: &str) -> (r: Result<Pattern, ScanningError>)
    ensures
        r is Ok <==> regex_compiles(src@),
        r matches Ok(p) ==> p.src() == src@,
        r matches Err(e) ==> e matches ScanningError::InvalidPattern(s) && s@ == src@,
{
    compile(String::from_str(src))
}

impl RawGlobalConfig {
    /// The configuration: each setting as given or its default, configured
    /// paths with `$HOME` expanded, and every pattern compiled (a pattern
    /// that does not compile is reported by its text).
    pub fn to_global_config(self, dirs: ConfigDirs) -> (r: Result<GlobalConfig, ScanningError>)
        ensures
            r is Ok <==> (regex_compiles(or_default(opt_view(self.plugin_regex_str), default_plugin_regex()))
                && regex_compiles(or_default(opt_view(self.linkedbin_regex_str), default_linkedbin_regex()))
                && regex_compiles(or_default(opt_view(self.fn_regex_str), default_fn_regex()))
                && regex_compiles(or_default(opt_view(self.name_from_cmd_regex_str), default_name_from_cmd_regex()))
                && regex_compiles(func_regex_src()) && regex_compiles(cmd_regex_src())
                && regex_compiles(alias_regex_src())),
            r matches Err(e) ==> e matches ScanningError::InvalidPattern(s) && (
                s@ == or_default(opt_view(self.plugin_regex_str), default_plugin_regex())
                || s@ == or_default(opt_view(self.linkedbin_regex_str), default_linkedbin_regex())
                || s@ == or_default(opt_view(self.fn_regex_str), default_fn_regex())
                || s@ == or_default(opt_view(self.name_from_cmd_regex_str), default_name_from_cmd_regex())
                || s@ == func_regex_src() || s@ == cmd_regex_src() || s@ == alias_regex_src()),
            r matches Ok(c) ==> {
                &&& c.root_dir@ == dirs.root_dir@
                &&& c.path_dir@ == dirs.path_dir@
                &&& c.config_dir@ == dirs.config_dir@
                &&& c.data_dir@ == dirs.data_dir@
                &&& c.home@ == dirs.home@
                &&& c.plugin_regex.src() == or_default(opt_view(self.plugin_regex_str), default_plugin_regex())
                &&& c.linkedbin_regex.src() == or_default(opt_view(self.linkedbin_regex_str), default_linkedbin_regex())
                &&& c.fn_regex.src() == or_default(opt_view(self.fn_regex_str), default_fn_regex())
                &&& c.name_from_cmd_regex.src() == or_default(opt_view(self.name_from_cmd_regex_str), default_name_from_cmd_regex())
                &&& c.func_regex.src() == func_regex_src()
                &&& c.cmd_regex.src() == cmd_regex_src()
                &&& c.alias_regex.src() == alias_regex_src()
                &&& c.name_from_alias_template@ == or_default(opt_view(self.name_from_alias_template), "{{ alias }}.al"@)
                &&& c.selector_widget_template@ == or_default(opt_view(self.selector_widget_template), "{{ alias }}._select.wg"@)
                &&& c.fn_template@ == or_default(opt_view(self.fn_template), "{{ pg_alias }}.{{ name }}"@)
                &&& c.fn_table_template@ == or_default(opt_view(self.fn_table_template), "{{ name }}\t{{ flags }}\t{{ cmds }}\t{{ desc }}"@)
                &&& c.all_fn_table_template@ == or_default(opt_view(self.all_fn_table_template),
                    "{{ pg_alias }}\t\t{{ cmds }}\t{{ name }}\t\t{{ alias }}\t\t{{ desc }}"@)
                &&& c.name_when_widget_template@ == or_default(opt_view(self.name_when_widget_template), "{{ name }}.wg"@)
                &&& c.template_file@ == join_path(dirs.config_dir@, "template.zsh"@)
                &&& c.init_file@ == join_path(dirs.data_dir@, "fzs_init.zsh"@)
                &&& c.fzs_name@ == or_default(opt_view(self.fzs_name), "fzs"@)
                &&& c.generated_file@ == match self.generated_file {
                    Some(g) => expand_home(g@, dirs.home@),
                    None => join_path(dirs.data_dir@, "fzs_plugins.zsh"@),
                }
                &&& c.provides_file@ == match self.provides_file {
                    Some(g) => expand_home(g@, dirs.home@),
                    None => "fzs.env"@,
                }
                &&& views(c.plugin_selector_binds@) == match self.plugin_selector_binds {
                    Some(b) => views(b@),
                    None => seq!["^[p"@],
                }
                &&& views(c.all_fn_selector_binds@) == match self.all_fn_selector_binds {
                    Some(b) => views(b@),
                    None => seq!["^[f"@],
                }
                &&& c.fzs_fzf_dir_cmd@ == or_default(opt_view(self.fzf_dir_cmd), "ls -la"@)
                &&& c.fzs_fzf_pager_cmd@ == or_default(opt_view(self.fzf_pager_cmd), "less -RX"@)
                &&& c.fzs_fzf_base_preview@ == or_default(opt_view(self.fzf_base_preview),
                    "source $fzs_init_file > /dev/null 2>&1; source $fzs_plugins_file > /dev/null 2>&1; which -a {3}"@)
            },
    {
        let plugin_regex = compile(given_or(self.plugin_regex_str,
            r"^([a-zA-Z0-9]+)(?:_([a-zA-Z0-9-]+))?(?:_([a-zA-Z0-9-]+))?_select$"))?;
        let fn_regex = compile(given_or(self.fn_regex_str,
            r"^(_*[a-zA-Z0-9-]+)(?:_([a-zA-Z0-9-]*))?(?:_([a-zA-Z0-9-\(\)_ ]+))?(?:\.[a-zA-Z0-9,\. ]+)?$"))?;
        let linkedbin_regex = compile(given_or(self.linkedbin_regex_str,
            r"^_([a-zA-Z0-9-]+)()(?:_([a-zA-Z0-9-]+))?(?:\.[a-zA-Z0-9\(\)\,\+\^]+)?$"))?;
        let name_from_cmd_regex = compile(given_or(self.name_from_cmd_regex_str, r"^(?:_*[a-zA-Z0-9-]+\.)?(.*)$"))?;
        let func_regex = compile_fixed(r"(?:^| )\$([a-zA-Z0-9_]+)\s*\(")?;
        let cmd_regex = compile_fixed(r"(?:^| )([\$a-zA-Z0-9_.\-\&]+)\s*\(")?;
        let alias_regex = compile_fixed(r#"alias ([\$a-zA-Z0-9_.\-\&]+)=['"]?([^'"]*)"#)?;
        proof {
            reveal_strlit("$HOME");
        }
        let generated_file = match self.generated_file {
            Some(g) => crate::scan::replace_if(g.as_str(), "$HOME", dirs.home.as_str()),
            None => path_join(dirs.data_dir.as_str(), "fzs_plugins.zsh"),
        };
        let provides_file = match self.provides_file {
            Some(g) => crate::scan::replace_if(g.as_str(), "$HOME", dirs.home.as_str()),
            None => String::from_str("fzs.env"),
        };
        let plugin_selector_binds = match self.plugin_selector_binds {
            Some(b) => b,
            None => {
                let mut v: Vec<String> = Vec::new();
                v.push(String::from_str("^[p"));
                assert(views(v@) =~= seq!["^[p"@]);
                v
            },
        };
        let all_fn_selector_binds = match self.all_fn_selector_binds {
            Some(b) => b,
            None => {
                let mut v: Vec<String> = Vec::new();
                v.push(String::from_str("^[f"));
                assert(views(v@) =~= seq!["^[f"@]);
                v
            },
        };
        Ok(GlobalConfig {
            template_file: path_join(dirs.config_dir.as_str(), "template.zsh"),
            init_file: path_join(dirs.data_dir.as_str(), "fzs_init.zsh"),
            root_dir: dirs.root_dir,
            path_dir: dirs.path_dir,
            config_dir: dirs.config_dir,
            data_dir: dirs.data_dir,
            home: dirs.home,
            plugin_regex,
            linkedbin_regex,
            fn_regex,
            name_from_cmd_regex,
            func_regex,
            cmd_regex,
            alias_regex,
            name_from_alias_template: given_or(self.name_from_alias_template, "{{ alias }}.al"),
            selector_widget_template: given_or(self.selector_widget_template, "{{ alias }}._select.wg"),
            fn_template: given_or(self.fn_template, "{{ pg_alias }}.{{ name }}"),
            fn_table_template: given_or(self.fn_table_template, "{{ name }}\t{{ flags }}\t{{ cmds }}\t{{ desc }}"),
            all_fn_table_template: given_or(self.all_fn_table_template,
                "{{ pg_alias }}\t\t{{ cmds }}\t{{ name }}\t\t{{ alias }}\t\t{{ desc }}"),
            name_when_widget_template: given_or(self.name_when_widget_template, "{{ name }}.wg"),
            fzs_name: given_or(self.fzs_name, "fzs"),
            generated_file,
            provides_file,
            plugin_selector_binds,
            all_fn_selector_binds,
            fzs_fzf_dir_cmd: given_or(self.fzf_dir_cmd, "ls -la"),
            fzs_fzf_pager_cmd: given_or(self.fzf_pager_cmd, "less -RX"),
            fzs_fzf_base_preview: given_or(self.fzf_base_preview,
                "source $fzs_init_file > /dev/null 2>&1; source $fzs_plugins_file > /dev/null 2>&1; which -a {3}"),
        })
    }
}

} // verus!
