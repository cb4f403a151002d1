use fzs::config::{ConfigDirs, GlobalConfig, RawGlobalConfig};
use fzs::flags::{FlagSet, FnFlag};
use fzs::model::{Fun, InitialPlugin, Plugin};
use fzs::output::{build_source_commands, init_file_contents, sort_strings, templatize_contents};
use fzs::scan::pathbuf_to_string;
use fzs::template::{flags_string, templatize};
use fzs::text::{replace, split_words};

fn config() -> GlobalConfig {
    RawGlobalConfig::default()
        .to_global_config(ConfigDirs {
            root_dir: "/home/u/.fzs".to_string(),
            path_dir: "/home/u/.local/state/fzs".to_string(),
            config_dir: "/home/u/.config/fzs".to_string(),
            data_dir: "/home/u/.local/share/fzs".to_string(),
            home: "/home/u".to_string(),
        })
        .unwrap()
}

fn group(name: &str, alias: Option<&str>, fns: Vec<Fun>) -> Plugin {
    InitialPlugin {
        name: name.to_string(),
        path: format!("/home/u/.fzs/{}", name),
        alias: alias.map(|a| a.to_string()),
        desc: Some(format!("{} things", name)),
    }
    .to_plugin(fns)
}

fn with_flags(name: &str, flags: Vec<FnFlag>) -> Fun {
    let mut f = Fun::named(name.to_string());
    f.flags = FlagSet::from_flags(flags);
    f
}

#[test]
fn listing_is_sorted_by_name_and_skips_unlisted() {
    let cfg = config();
    let p = group(
        "git",
        Some("g"),
        vec![with_flags("zeta", vec![]), with_flags("alpha", vec![FnFlag::NN]), with_flags("hidden", vec![FnFlag::NA])],
    );
    let t = p.fn_table(&cfg).unwrap();
    assert_eq!(t, "alpha\t,NN,\talpha\t\nzeta\t,,\tg.zeta\t");
    let empty = group("none", None, vec![with_flags("h", vec![FnFlag::NA])]);
    assert_eq!(empty.fn_table(&cfg), None);
}

#[test]
fn extras_hold_alias_wrapper_and_binds() {
    let cfg = config();
    let mut f = with_flags("run", vec![FnFlag::WR]);
    f.alias = Some("r".to_string());
    f.binds = vec!["^r".to_string(), "".to_string()];
    let mut p = group("git", Some("g"), vec![f]);
    p.binds = vec!["^g".to_string()];
    let t = p.extra_table(&cfg).unwrap();
    let expected = [
        "alias r=\"g.run\"",
        "g.run() { if zle; then zle push-input; BUFFER=\"command g.run \"; else command g.run $@; fi; }",
        "zle -N g.run",
        "bindkey '^r' \"g.run\"",
        "bindkey '^g' \"g._select.wg\"",
        "\n",
    ]
    .join("\n");
    assert_eq!(t, expected);
    let quiet = group("q", None, vec![with_flags("x", vec![])]);
    assert_eq!(quiet.extra_table(&cfg), None);
}

#[test]
fn background_wrapper_shape() {
    let cfg = config();
    let p = group("job", None, vec![with_flags("sync", vec![FnFlag::PBG])]);
    let t = p.extra_table(&cfg).unwrap();
    assert_eq!(t, "job.sync() { pueue add  --escape -- command job.sync $@ >/dev/null 2>&1; }\n\n");
}

#[test]
fn flags_are_comma_wrapped() {
    let f = with_flags("x", vec![FnFlag::WG, FnFlag::NA, FnFlag::WG]);
    assert_eq!(flags_string(&f), ",WG,NA,");
}

#[test]
fn templatize_is_one_pass() {
    let cfg = config();
    let mut f = Fun::named("x".to_string());
    f.desc = Some("{{ name }}".to_string());
    let p = group("g", None, vec![]);
    let out = templatize(Some(&f), &p, "{{ desc }}|{{ name }}|{{ pg_alias }}|{{ cmds }}", &cfg, false, false);
    assert_eq!(out, "{{ name }}|x|g|g.x");
    let spaced = templatize(Some(&f), &p, "[{{ alias }}][{{ pg_alias }}]", &cfg, true, true);
    assert_eq!(spaced, "[ ][ ]");
}

#[test]
fn source_lines_are_sorted_and_prefixed_with_environment() {
    let cfg = config();
    let mut f = Fun::named("deploy".to_string());
    f.fstring = Some("deploy".to_string());
    let mut p = group("ops", Some("o"), vec![f]);
    p.sources = vec!["/home/u/.fzs/ops/b.zshrc".to_string(), "/home/u/.fzs/ops/a.zshrc".to_string()];
    let single = group("one", None, vec![]);
    let mut single = single;
    single.sources = vec!["/elsewhere/x.zsh".to_string()];
    let text = build_source_commands(&vec![p, single], &cfg);
    assert_eq!(
        text,
        "\nthis=o this_name=ops \\\ndeploy=o.deploy \\\nsource <(cat \"$FZS_ROOT_DIR/ops/a.zshrc\" \"$FZS_ROOT_DIR/ops/b.zshrc\")\n\
         \nthis=one this_name=one \\\nsource \"/elsewhere/x.zsh\"\n\
         this(){echo ${${funcstack[2]}%%.*};}\n"
    );
}

#[test]
fn init_document_fills_tables_binds_and_sources() {
    let cfg = config();
    let b = group("beta", None, vec![with_flags("y", vec![])]);
    let a = group("alpha", Some("a"), vec![with_flags("x", vec![]), with_flags("r", vec![FnFlag::PG])]);
    let hidden = group("hid", Some(""), vec![with_flags("z", vec![])]);
    let doc = init_file_contents("[{{ fn_table }}]\n[{{ all_fn_table }}]\n{{ fzs_name }}\n", &vec![b, a, hidden], &cfg);
    let expected = "[a\t$FZS_ROOT_DIR/alpha\ta._select.wg\talpha\talpha things\n \t$FZS_ROOT_DIR/beta\tbeta._select.wg\tbeta\tbeta things]\n\
                    [a\t\ta.x\tx\t\tx\t\t\nbeta\t\tbeta.y\ty\t\ty\t\t]\n\
                    fzs\n\
                    bindkey '^[p' \"fzs.plugin-select.wg\"\n\
                    bindkey '^[f' \"fzs.all-fn-select.wg\"\n\
                    this(){echo ${${funcstack[2]}%%.*};}\n";
    assert_eq!(doc, expected);
}

#[test]
fn generated_file_has_listing_and_extras() {
    let cfg = config();
    let mut f = with_flags("st", vec![]);
    f.alias = Some("gs".to_string());
    let p = group("git", Some("g"), vec![f]);
    let text = p.generated_contents("sel={{ selector_name }}\n{{ fn_table }}", &cfg);
    assert_eq!(text, "sel=g._select.wg\nst\t,,\tg.st\t\n### ALIASES AND BINDS\nalias gs=\"g.st\"\n\n");
}

#[test]
fn contents_placeholders_include_paths() {
    let cfg = config();
    let names = vec!["k".to_string()];
    let values = vec!["v".to_string()];
    let out = templatize_contents("{{ k }} {{ fzs_root_dir }} {{ fzs_init_file }} {{ fzs_plugins_file }} {{ other }}", &cfg, &names, &values);
    assert_eq!(out, "v $HOME/.fzs $HOME/.local/share/fzs/fzs_init.zsh $HOME/.local/share/fzs/fzs_plugins.zsh {{ other }}");
}

#[test]
fn paths_are_written_with_variables() {
    let cfg = config();
    assert_eq!(pathbuf_to_string("/home/u/.local/state/fzs/x", &cfg), "$FZS_PATH_DIR/x");
    assert_eq!(pathbuf_to_string("/home/u/other", &cfg), "$HOME/other");
}

#[test]
fn env_contents_and_env_file() {
    let cfg = config();
    let mut f = Fun::named("deploy".to_string());
    f.fstring = Some("deploy".to_string());
    let p = group("ops", None, vec![f, Fun::named("other".to_string())]);
    assert_eq!(p.env_contents(&cfg), "this=ops this_name=ops \\\ndeploy=ops.deploy \\\n");
    assert_eq!(p.env_file_contents(&cfg).as_deref(), Some("this=ops\nthis_name=ops\ndeploy=ops.deploy\n"));
    let q = group("q", None, vec![Fun::named("x".to_string())]);
    assert_eq!(q.env_file_contents(&cfg), None);
}

#[test]
fn text_helpers() {
    assert_eq!(replace("aXbXX", "X", "yy"), "ayybyyyy");
    assert_eq!(split_words("  a\tbb \u{3000}c  "), vec!["a", "bb", "c"]);
    assert_eq!(sort_strings(&vec!["b".to_string(), "a".to_string(), "B".to_string()]), vec!["B", "a", "b"]);
}

#[test]
fn all_functions_table_sorted_within_group() {
    let cfg = config();
    let g = group("g", None, vec![with_flags("zz", vec![]), with_flags("aa", vec![])]);
    let doc = init_file_contents("{{ all_fn_table }}|", &vec![g], &cfg);
    assert!(doc.starts_with("g\t\tg.aa\taa\t\taa\t\t\ng\t\tg.zz\tzz\t\tzz\t\t|"));
}
