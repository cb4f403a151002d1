use fzs::config::{ConfigDirs, GlobalConfig, RawGlobalConfig};
use fzs::directive::{parse_file_flags, process_ext, replace_shell};
use fzs::flags::{FlagSet, FnFlag};
use fzs::fragment::populate_from_file;
use fzs::group::{populate_plugin, FileEntry};
use fzs::merge::{finalize_plugins, RawPlugin};
use fzs::model::{Fun, InitialPlugin, Plugin, ScanningError};
use fzs::scan::{plugin_from_dir, process_cmd, process_fstring, register_scanned, Scanned};
use fzs::symlinks::{rollback_plan, symlink_plan, RollbackStep};
use fzs::template::templatize_simple;

fn config() -> GlobalConfig {
    RawGlobalConfig::default()
        .to_global_config(ConfigDirs {
            root_dir: "/home/u/.fzs".to_string(),
            path_dir: "/home/u/.local/state/fzs".to_string(),
            config_dir: "/home/u/.config/fzs".to_string(),
            data_dir: "/home/u/.local/share/fzs".to_string(),
            home: "/home/u".to_string(),
        })
        .unwrap()
}

fn initial(name: &str, alias: Option<&str>) -> InitialPlugin {
    InitialPlugin {
        name: name.to_string(),
        path: format!("/home/u/.fzs/{}", name),
        alias: alias.map(|a| a.to_string()),
        desc: None,
    }
}

fn exe(dir: &str, name: &str) -> FileEntry {
    FileEntry {
        path: format!("{}/{}", dir, name),
        file_name: name.to_string(),
        executable: true,
        lines: Vec::new(),
    }
}

fn fragment(dir: &str, name: &str, lines: &[&str]) -> FileEntry {
    FileEntry {
        path: format!("{}/{}", dir, name),
        file_name: name.to_string(),
        executable: false,
        lines: lines.iter().map(|l| l.to_string()).collect(),
    }
}

fn fun<'a>(p: &'a Plugin, name: &str) -> &'a Fun {
    p.fns.iter().find(|f| f.name == name).unwrap()
}

fn flags(f: &Fun) -> Vec<FnFlag> {
    (0..f.flags.len()).map(|i| f.flags.get(i)).collect()
}

#[test]
fn group_directory_and_executable_give_namespaced_invocation() {
    let cfg = config();
    let ip = match plugin_from_dir("git_g_select", "/home/u/.fzs/git_g_select", &cfg) {
        Scanned::ScannedPlugin(ip) => ip,
        other => panic!("not a group: {:?}", other),
    };
    assert_eq!(ip.name, "git");
    assert_eq!(ip.alias.as_deref(), Some("g"));
    let mut plugins = Vec::new();
    let entries = vec![exe("/home/u/.fzs/git_g_select", "status")];
    populate_plugin(&mut plugins, &ip, &entries, &FlagSet::new(), &cfg).unwrap();
    let f = fun(&plugins[0], "status");
    assert_eq!(f.get_cmd(&plugins[0], &cfg), "g.status");
    assert_eq!(f.bin.as_deref(), Some("/home/u/.fzs/git_g_select/status"));
}

#[test]
fn linked_binary_directory_has_empty_alias() {
    let cfg = config();
    match plugin_from_dir("_tools_Handy", "/x/_tools_Handy", &cfg) {
        Scanned::ScannedLinkedbin(ip) => {
            assert_eq!(ip.name, "tools");
            assert_eq!(ip.alias.as_deref(), Some(""));
            assert_eq!(ip.desc.as_deref(), Some("Handy"));
        }
        other => panic!("not a linked-binary group: {:?}", other),
    }
    assert!(matches!(plugin_from_dir("plain", "/x/plain", &cfg), Scanned::Nothing));
}

#[test]
fn same_stem_name_in_one_group_is_a_duplicate_naming_both_files() {
    let cfg = config();
    let ip = initial("ops", None);
    let mut plugins = Vec::new();
    let entries = vec![exe("/home/u/.fzs/ops", "deploy"), exe("/home/u/.fzs/ops", "deploy_dp")];
    match populate_plugin(&mut plugins, &ip, &entries, &FlagSet::new(), &cfg) {
        Err(ScanningError::DuplicateFunctionName(name, info)) => {
            assert_eq!(name, "deploy");
            assert!(info.contains("/home/u/.fzs/ops/deploy_dp"));
            assert!(info.ends_with("conflicts with /home/u/.fzs/ops/deploy"));
        }
        other => panic!("expected a duplicate error, got {:?}", other),
    }
}

#[test]
fn alias_directive_registers_alias_function() {
    let cfg = config();
    let ip = initial("sys", None);
    let mut fns = Vec::new();
    let lines = vec!["# :AL alias=ll desc=list all".to_string(), "alias ll='ls -la'".to_string()];
    populate_from_file(&lines, "/home/u/.fzs/sys/a.zshrc", &mut fns, &ip, &FlagSet::new(), &cfg).unwrap();
    assert_eq!(fns.len(), 1);
    assert_eq!(fns[0].name, "ll.al");
    assert_eq!(fns[0].alias.as_deref(), Some("ll"));
    assert_eq!(fns[0].desc.as_deref(), Some("list all"));
    assert_eq!(fns[0].cmd.as_deref(), Some("ls -la"));
}

#[test]
fn alias_directive_without_flag_registers_alias_function() {
    let cfg = config();
    let ip = initial("sys", None);
    let mut fns = Vec::new();
    let lines = vec!["# :alias=ll desc=list all".to_string(), "alias ll='ls -la'".to_string()];
    populate_from_file(&lines, "/f.zshrc", &mut fns, &ip, &FlagSet::new(), &cfg).unwrap();
    assert_eq!(fns.len(), 1);
    assert_eq!(fns[0].name, "ll.al");
    assert_eq!(fns[0].alias.as_deref(), Some("ll"));
    assert_eq!(fns[0].desc.as_deref(), Some("list all"));
    assert_eq!(fns[0].cmd.as_deref(), Some("ls -la"));
}

#[test]
fn alias_setting_with_function_line_declares_function() {
    let cfg = config();
    let ip = initial("sys", None);
    let mut fns = Vec::new();
    let lines = vec!["# :alias=d".to_string(), "$deploy() { git push; }".to_string()];
    populate_from_file(&lines, "/f.zshrc", &mut fns, &ip, &FlagSet::new(), &cfg).unwrap();
    assert_eq!(fns.len(), 1);
    assert_eq!(fns[0].name, "deploy");
}

#[test]
fn directive_skips_comments_and_blank_lines_before_declaration() {
    let cfg = config();
    let ip = initial("git", Some("g"));
    let mut fns = Vec::new();
    let lines: Vec<String> = vec![
        "  # :desc=show log",
        "",
        "# a comment",
        "$deploy() { git push; }",
    ]
    .into_iter()
    .map(String::from)
    .collect();
    populate_from_file(&lines, "/f.zshrc", &mut fns, &ip, &FlagSet::new(), &cfg).unwrap();
    assert_eq!(fns.len(), 1);
    assert_eq!(fns[0].name, "deploy");
    assert_eq!(fns[0].desc, None);
    assert_eq!(fns[0].fstring.as_deref(), Some("deploy"));
    assert_eq!(fns[0].bin, None);
}

#[test]
fn cmd_directive_registers_literal_command() {
    let cfg = config();
    let ip = initial("net", None);
    let mut fns = Vec::new();
    let lines = vec!["# :cmd=ping-home desc=ping it".to_string()];
    populate_from_file(&lines, "/f.zshrc", &mut fns, &ip, &FlagSet::new(), &cfg).unwrap();
    assert_eq!(fns[0].name, "pinghome");
    assert_eq!(fns[0].cmd.as_deref(), Some("ping-home"));
    assert!(fns[0].flags.contains(FnFlag::CMD));
}

#[test]
fn group_reference_directive_and_finalize_copy_alias() {
    let cfg = config();
    let mut plugins = Vec::new();
    let git = initial("git", Some("g"));
    populate_plugin(&mut plugins, &git, &vec![], &FlagSet::new(), &cfg).unwrap();
    let top = initial("top", None);
    let entries = vec![fragment("/home/u/.fzs/top", "refs.zshrc", &["# :PG name=git desc=git things"])];
    populate_plugin(&mut plugins, &top, &entries, &FlagSet::new(), &cfg).unwrap();
    assert_eq!(plugins[1].sources, vec!["/home/u/.fzs/top/refs.zshrc".to_string()]);
    finalize_plugins(&mut plugins).unwrap();
    let f = fun(&plugins[1], "git");
    assert_eq!(f.alias.as_deref(), Some("g"));
}

#[test]
fn reference_to_missing_group_fails() {
    let mut p = initial("top", None).to_plugin(Vec::new());
    let mut f = Fun::named("nowhere".to_string());
    f.flags.insert(FnFlag::PG);
    p.fns.push(f);
    let mut plugins = vec![p];
    match finalize_plugins(&mut plugins) {
        Err(ScanningError::MissingPlugin(pg, name)) => {
            assert_eq!(pg, "top");
            assert_eq!(name, "nowhere");
        }
        other => panic!("expected a missing group, got {:?}", other),
    }
}

#[test]
fn duplicate_literal_command_is_reported() {
    let cfg = config();
    let mut fns = Vec::new();
    process_cmd("up".into(), None, None, None, "up".into(), FlagSet::new(), vec![], &mut fns, &cfg).unwrap();
    let r = process_cmd("up".into(), None, None, None, "uptime".into(), FlagSet::new(), vec![], &mut fns, &cfg);
    match r {
        Err(ScanningError::DuplicateFunctionName(n, info)) => {
            assert_eq!(n, "up");
            assert_eq!(info, "uptime conflicts with up");
        }
        other => panic!("expected a duplicate, got {:?}", other),
    }
    assert_eq!(fns.len(), 1);
}

#[test]
fn unmatched_stem_is_skipped() {
    let cfg = config();
    let mut fns = Vec::new();
    process_fstring("bad name!", Some("/x/bad name!"), FlagSet::new(), vec![], &mut fns, &cfg, false).unwrap();
    assert!(fns.is_empty());
}

#[test]
fn duplicate_group_identifier_is_an_error() {
    let mut plugins = Vec::new();
    let mut linked = Vec::new();
    register_scanned(&mut plugins, &mut linked, Scanned::ScannedPlugin(initial("a", None))).unwrap();
    register_scanned(&mut plugins, &mut linked, Scanned::ScannedLinkedbin(initial("a", Some("")))).unwrap();
    register_scanned(&mut plugins, &mut linked, Scanned::ScannedLinkedbin(initial("a", Some("")))).unwrap();
    match register_scanned(&mut plugins, &mut linked, Scanned::ScannedPlugin(initial("a", None))) {
        Err(ScanningError::DuplicatePluginIdentifier(n)) => assert_eq!(n, "a"),
        other => panic!("expected a duplicate group, got {:?}", other),
    }
    assert_eq!(plugins.len(), 1);
    assert_eq!(linked.len(), 2);
}

#[test]
fn invalid_pattern_is_reported_by_its_text() {
    let raw = RawGlobalConfig { fn_regex_str: Some("(".to_string()), ..RawGlobalConfig::default() };
    let r = raw.to_global_config(ConfigDirs {
        root_dir: "/r".into(),
        path_dir: "/p".into(),
        config_dir: "/c".into(),
        data_dir: "/d".into(),
        home: "/h".into(),
    });
    match r {
        Err(ScanningError::InvalidPattern(s)) => assert_eq!(s, "("),
        other => panic!("expected an invalid pattern, got {:?}", other.map(|_| ())),
    }
}

#[test]
fn config_defaults_and_home_expansion() {
    let raw = RawGlobalConfig { generated_file: Some("$HOME/gen.zsh".to_string()), ..RawGlobalConfig::default() };
    let cfg = raw
        .to_global_config(ConfigDirs {
            root_dir: "/r".into(),
            path_dir: "/p".into(),
            config_dir: "/c".into(),
            data_dir: "/d".into(),
            home: "/h".into(),
        })
        .unwrap();
    assert_eq!(cfg.generated_file, "/h/gen.zsh");
    assert_eq!(cfg.init_file, "/d/fzs_init.zsh");
    assert_eq!(cfg.template_file, "/c/template.zsh");
    assert_eq!(cfg.provides_file, "fzs.env");
    assert_eq!(cfg.fn_template, "{{ pg_alias }}.{{ name }}");
    assert_eq!(cfg.plugin_selector_binds, vec!["^[p".to_string()]);
}

#[test]
fn settings_merge_overrides_fields_but_not_command() {
    let cfg = config();
    let mut plugins = Vec::new();
    let ip = initial("net", None);
    let entries = vec![fragment("/d", "n.zshrc", &["# :cmd=ping desc=old"])];
    populate_plugin(&mut plugins, &ip, &entries, &FlagSet::new(), &cfg).unwrap();
    let mut over = Fun::named("ping".to_string());
    over.desc = Some("new".to_string());
    over.cmd = Some("pong".to_string());
    over.flags.insert(FnFlag::NA);
    let mut added = Fun::named("extra".to_string());
    added.binds = vec!["^x".to_string()];
    let raw = RawPlugin {
        name: "net".into(),
        desc: Some("network".into()),
        alias: Some("n".into()),
        fns: vec![over, added],
        fn_template: None,
        binds: vec!["^n".into()],
    };
    plugins[0].merge_from_raw(raw).unwrap();
    let p = &plugins[0];
    assert_eq!(p.alias.as_deref(), Some("n"));
    assert_eq!(p.desc.as_deref(), Some("network"));
    assert_eq!(p.binds, vec!["^n".to_string()]);
    let ping = fun(p, "ping");
    assert_eq!(ping.desc.as_deref(), Some("new"));
    assert_eq!(ping.cmd.as_deref(), Some("ping"));
    assert_eq!(flags(ping), vec![FnFlag::NA]);
    assert_eq!(flags(fun(p, "extra")), vec![FnFlag::WG]);
}

#[test]
fn widget_with_whitespace_command_is_invalid() {
    let mut f = Fun::named("w".to_string());
    f.flags.insert(FnFlag::WG);
    f.cmd = Some("two words".to_string());
    match f.check() {
        Err(ScanningError::InvalidFn(m)) => {
            assert_eq!(m, "Widget command for w must be a valid identifier: Cannot contain whitespace")
        }
        other => panic!("expected an invalid function, got {:?}", other),
    }
    assert_eq!(f.cmd.as_deref(), Some("two words"));
}

#[test]
fn group_reference_check_clears_alias_and_command() {
    let mut f = Fun::named("git".to_string());
    f.flags.insert(FnFlag::PG);
    f.alias = Some("x".into());
    f.cmd = Some("y".into());
    f.check().unwrap();
    assert_eq!(f.alias, None);
    assert_eq!(f.cmd, None);
}

#[test]
fn symlink_plan_names_links_after_invocation() {
    let cfg = config();
    let mut plugins = Vec::new();
    let ip = initial("git", Some("g"));
    let entries = vec![exe("/home/u/.fzs/git", "status"), exe("/home/u/.fzs/git", "pick.WG")];
    populate_plugin(&mut plugins, &ip, &entries, &FlagSet::new(), &cfg).unwrap();
    let plan = symlink_plan(&plugins, &cfg);
    assert_eq!(plan.len(), 1);
    assert_eq!(plan[0].source, "/home/u/.fzs/git/status");
    assert_eq!(plan[0].link, "/home/u/.local/state/fzs/g.status");
}

#[test]
fn rollback_removes_created_then_restores_backup() {
    let plan = rollback_plan(&vec!["a".to_string(), "b".to_string()], &vec!["g.x".to_string()]);
    let text: Vec<String> = plan
        .iter()
        .map(|s| match s {
            RollbackStep::RemoveCreated(n) => format!("-{}", n),
            RollbackStep::Restore(n) => format!("+{}", n),
        })
        .collect();
    assert_eq!(text, vec!["-g.x", "+a", "+b"]);
}

#[test]
fn replace_shell_uses_alias_and_name() {
    let ip = initial("git", Some("g"));
    assert_eq!(replace_shell("$this.log ${this_name} ${this} $this_name", &ip), "g.log git g git");
}

#[test]
fn templatize_simple_fills_effective_alias() {
    let ip = initial("git", Some(""));
    assert_eq!(templatize_simple(&ip, "{{ alias }}._select.wg {{ name }} [{{ desc }}]"), "git._select.wg git []");
}

#[test]
fn directive_tokens() {
    let d = process_ext(Some("name=foo alias=f binds=^a,^b wg,na desc=hello big world"));
    assert_eq!(d.name.as_deref(), Some("foo"));
    assert_eq!(d.alias.as_deref(), Some("f"));
    assert_eq!(d.desc.as_deref(), Some("hello big world"));
    assert_eq!(d.binds, vec!["^a".to_string(), "^b".to_string()]);
    let fl: Vec<FnFlag> = (0..d.flags.len()).map(|i| d.flags.get(i)).collect();
    assert_eq!(fl, vec![FnFlag::WG, FnFlag::NA]);
}

#[test]
fn second_flag_list_is_ignored() {
    let d = process_ext(Some("WR SS"));
    let fl: Vec<FnFlag> = (0..d.flags.len()).map(|i| d.flags.get(i)).collect();
    assert_eq!(fl, vec![FnFlag::WR]);
}

#[test]
fn cmd_token_names_function_from_identifier_characters() {
    let d = process_ext(Some("cmd=git-st_x.y"));
    assert_eq!(d.name.as_deref(), Some("gitst_xy"));
    assert_eq!(d.cmd.as_deref(), Some("git-st_x.y"));
    assert!(d.flags.contains(FnFlag::CMD));
}

#[test]
fn flag_names_parse_in_any_case() {
    assert_eq!(FnFlag::parse("wjsub"), Some(FnFlag::WJSUB));
    assert_eq!(FnFlag::parse("Pgi"), Some(FnFlag::PGI));
    assert_eq!(FnFlag::parse("bogus"), None);
    let mut fs = FlagSet::new();
    parse_file_flags("nn,bogus,na,nn", &mut fs);
    assert_eq!((0..fs.len()).map(|i| fs.get(i)).collect::<Vec<_>>(), vec![FnFlag::NN, FnFlag::NA]);
    assert_eq!(FnFlag::WSUB.name(), "WSUB");
}

#[test]
fn model_is_built_from_groups_linked_binaries_and_settings() {
    let cfg = config();
    let groups = vec![
        fzs::pipeline::GroupFiles {
            group: initial("git", Some("g")),
            entries: vec![exe("/home/u/.fzs/git", "status"), fragment("/home/u/.fzs/git", "x.zshrc", &["# :PG name=net"])],
        },
        fzs::pipeline::GroupFiles { group: initial("net", Some("n")), entries: vec![exe("/home/u/.fzs/net", "ping")] },
    ];
    let linked = vec![fzs::pipeline::GroupFiles {
        group: initial("bins", Some("")),
        entries: vec![exe("/home/u/.fzs/_bins", "rg")],
    }];
    let raws = vec![fzs::merge::RawPlugin {
        name: "nowhere".into(),
        desc: None,
        alias: None,
        fns: vec![],
        fn_template: None,
        binds: vec![],
    }];
    let (plugins, unknown) = fzs::pipeline::build_model(&groups, &linked, raws, &cfg).unwrap();
    assert_eq!(unknown, vec!["nowhere".to_string()]);
    assert_eq!(plugins.len(), 3);
    assert_eq!(fun(&plugins[0], "net").alias.as_deref(), Some("n"));
    assert_eq!(flags(fun(&plugins[2], "rg")), vec![FnFlag::NA]);
    assert_eq!(fun(&plugins[2], "rg").get_cmd(&plugins[2], &cfg), "bins.rg");
}

#[test]
fn description_stops_at_next_prefixed_word() {
    let d = process_ext(Some("desc=list all alias=ll"));
    assert_eq!(d.desc.as_deref(), Some("list all"));
    assert_eq!(d.alias.as_deref(), Some("ll"));
}

#[test]
fn flag_list_after_cmd_token_is_read() {
    let d = process_ext(Some("cmd=ls wg"));
    assert_eq!(d.name.as_deref(), Some("ls"));
    let fl: Vec<FnFlag> = (0..d.flags.len()).map(|i| d.flags.get(i)).collect();
    assert_eq!(fl, vec![FnFlag::CMD, FnFlag::WG]);
}

#[test]
fn alias_declaration_drops_script_incompatible_flags() {
    let cfg = config();
    let ip = initial("sys", None);
    let mut fns = Vec::new();
    let lines = vec!["# :AL,PE,NA alias=ll".to_string(), "alias ll='ls -la'".to_string()];
    populate_from_file(&lines, "/f.zshrc", &mut fns, &ip, &FlagSet::new(), &cfg).unwrap();
    assert_eq!(flags(&fns[0]), vec![FnFlag::AL, FnFlag::NA]);
}

#[test]
fn widget_flag_after_other_run_mode_still_checks_command() {
    let mut f = Fun::named("w".to_string());
    f.flags = FlagSet::from_flags(vec![FnFlag::SS, FnFlag::WG]);
    f.cmd = Some("two words".to_string());
    assert!(matches!(f.check(), Err(ScanningError::InvalidFn(_))));
}

#[test]
fn settings_without_bindings_keep_group_bindings() {
    let mut p = initial("net", None).to_plugin(Vec::new());
    p.binds = vec!["^n".to_string()];
    let raw = RawPlugin { name: "net".into(), desc: None, alias: None, fns: vec![], fn_template: None, binds: vec![] };
    p.merge_from_raw(raw).unwrap();
    assert_eq!(p.binds, vec!["^n".to_string()]);
}

#[test]
fn fragment_duplicate_names_both_origins() {
    let cfg = config();
    let ip = initial("net", None);
    let mut fns = Vec::new();
    let lines = vec!["# :cmd=ping".to_string(), "# :AL".to_string(), "alias ping='ping -c1'".to_string()];
    populate_from_file(&lines, "/home/u/.fzs/net/a.zshrc", &mut fns, &ip, &FlagSet::new(), &cfg).unwrap();
    let lines2 = vec!["# :cmd=ping".to_string()];
    match populate_from_file(&lines2, "/home/u/.fzs/net/b.zshrc", &mut fns, &ip, &FlagSet::new(), &cfg) {
        Err(ScanningError::DuplicateFunctionName(n, info)) => {
            assert_eq!(n, "ping");
            assert_eq!(info, "$FZS_ROOT_DIR/net/b.zshrc conflicts with ping");
        }
        other => panic!("expected a duplicate, got {:?}", other),
    }
}
