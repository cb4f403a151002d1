use fzs::config::{ConfigDirs, GlobalConfig, RawGlobalConfig};
use fzs::flags::{FlagSet, FnFlag};
use fzs::model::{Fun, InitialPlugin, Plugin, ScanningError};

fn config() -> GlobalConfig {
    RawGlobalConfig::default()
        .to_global_config(ConfigDirs {
            root_dir: "/r".to_string(),
            path_dir: "/p".to_string(),
            config_dir: "/c".to_string(),
            data_dir: "/d".to_string(),
            home: "/h".to_string(),
        })
        .unwrap()
}

fn group(name: &str, fns: Vec<Fun>) -> Plugin {
    InitialPlugin { name: name.to_string(), path: format!("/r/{}", name), alias: None, desc: None }.to_plugin(fns)
}

fn flagged(name: &str, flags: Vec<FnFlag>) -> Fun {
    let mut f = Fun::named(name.to_string());
    f.flags = FlagSet::from_flags(flags);
    f
}

fn flags(f: &Fun) -> Vec<FnFlag> {
    (0..f.flags.len()).map(|i| f.flags.get(i)).collect()
}

#[test]
fn catch_all_group_and_no_namespace_resolve_to_bare_name() {
    let cfg = config();
    let mut f = flagged("tool", vec![FnFlag::PBG]);
    f.cmd = Some("something else".to_string());
    let base = group("base", vec![]);
    assert_eq!(f.get_cmd(&base, &cfg), "tool");
    assert_eq!(f.get_real_cmd(&base, &cfg), "tool");
    let other = group("other", vec![]);
    let nn = flagged("tool", vec![FnFlag::NN]);
    assert_eq!(nn.get_cmd(&other, &cfg), "tool");
    assert_eq!(flagged("tool", vec![]).get_cmd(&other, &cfg), "other.tool");
}

#[test]
fn binds_without_run_mode_make_a_widget() {
    let mut f = flagged("w", vec![FnFlag::NA]);
    f.binds = vec!["^w".to_string()];
    f.check().unwrap();
    assert_eq!(flags(&f), vec![FnFlag::NA, FnFlag::WG]);
}

#[test]
fn first_run_mode_flag_is_kept() {
    let mut f = flagged("r", vec![FnFlag::NA, FnFlag::WR, FnFlag::SS, FnFlag::NR, FnFlag::NN]);
    f.binds = vec!["^r".to_string()];
    f.check().unwrap();
    assert_eq!(flags(&f), vec![FnFlag::NA, FnFlag::WR, FnFlag::NN]);
}

#[test]
fn include_flattening_twice_changes_nothing() {
    let lib = group("lib", vec![flagged("a", vec![]), flagged("b", vec![FnFlag::NA])]);
    let plugins = vec![lib];
    let mut top = group("top", vec![flagged("lib", vec![FnFlag::PGI]), flagged("own", vec![])]);
    top.map_includes(&plugins).unwrap();
    let names: Vec<&str> = top.fns.iter().map(|f| f.name.as_str()).collect();
    assert_eq!(names, vec!["own", "a", "b"]);
    top.map_includes(&plugins).unwrap();
    let again: Vec<&str> = top.fns.iter().map(|f| f.name.as_str()).collect();
    assert_eq!(again, vec!["own", "a", "b"]);
}

#[test]
fn include_collision_fails_and_changes_nothing() {
    let plugins = vec![group("lib", vec![flagged("a", vec![])])];
    let mut top = group("top", vec![flagged("lib", vec![FnFlag::PGI]), flagged("a", vec![])]);
    match top.map_includes(&plugins) {
        Err(ScanningError::DuplicateFunctionName(n, info)) => {
            assert_eq!(n, "a");
            assert_eq!(info, "Attempted to include lib into top conflicts with ");
        }
        other => panic!("expected a collision, got {:?}", other),
    }
    assert_eq!(top.fns.len(), 2);
    let mut unknown = group("u", vec![flagged("nothere", vec![FnFlag::PGI])]);
    unknown.map_includes(&plugins).unwrap();
    assert!(unknown.fns.is_empty());
}

#[test]
fn output_is_identical_across_runs() {
    let cfg = config();
    let build = || {
        let mut f = flagged("z", vec![FnFlag::WJSUB]);
        f.alias = Some("zz".to_string());
        group("g", vec![f, flagged("a", vec![FnFlag::WSUB]), flagged("m", vec![FnFlag::WJR])])
    };
    let one = build().generated_contents("{{ fn_table }}", &cfg);
    let two = build().generated_contents("{{ fn_table }}", &cfg);
    assert_eq!(one, two);
    assert!(one.contains("g.a() { if zle; then local wgArgs;"));
    assert!(one.contains("g.m() { if zle; then local INIT_BUFFER=$BUFFER;"));
    assert!(one.contains("g.z() { if zle; then LBUFFER+=\"$(command g.z | tr '\n' ' \\\n') \"; else command g.z $@; fi }"));
}

#[test]
fn flattening_pass_and_settings_pass() {
    let mut plugins = vec![
        group("lib", vec![flagged("a", vec![])]),
        group("top", vec![flagged("lib", vec![FnFlag::PGI])]),
    ];
    fzs::merge::flatten_includes(&mut plugins).unwrap();
    let names: Vec<&str> = plugins[1].fns.iter().map(|f| f.name.as_str()).collect();
    assert_eq!(names, vec!["a"]);
    let raws = vec![
        fzs::merge::RawPlugin {
            name: "lib".into(),
            desc: Some("library".into()),
            alias: None,
            fns: vec![],
            fn_template: None,
            binds: vec![],
        },
        fzs::merge::RawPlugin {
            name: "ghost".into(),
            desc: None,
            alias: None,
            fns: vec![],
            fn_template: None,
            binds: vec![],
        },
    ];
    let unknown = fzs::merge::merge_settings(&mut plugins, raws).unwrap();
    assert_eq!(unknown, vec!["ghost".to_string()]);
    assert_eq!(plugins[0].desc.as_deref(), Some("library"));
}

#[test]
fn included_functions_are_copied_unchanged() {
    let mut w = flagged("w", vec![]);
    w.binds = vec!["^w".to_string()];
    w.flags = FlagSet::from_flags(vec![FnFlag::WG]);
    w.cmd = Some("has space".to_string());
    let plugins = vec![group("lib", vec![w])];
    let mut top = group("top", vec![flagged("lib", vec![FnFlag::PGI])]);
    top.map_includes(&plugins).unwrap();
    assert_eq!(top.fns[0].cmd.as_deref(), Some("has space"));
    assert_eq!(flags(&top.fns[0]), vec![FnFlag::WG]);
}

#[test]
fn flattening_is_one_level_and_order_independent() {
    let make = |order: bool| {
        let a = group("a", vec![flagged("b", vec![FnFlag::PGI]), flagged("x", vec![])]);
        let b = group("b", vec![flagged("c", vec![FnFlag::PGI]), flagged("y", vec![])]);
        let c = group("c", vec![flagged("z", vec![])]);
        if order { vec![a, b, c] } else { vec![c, b, a] }
    };
    let mut one = make(true);
    fzs::merge::flatten_includes(&mut one).unwrap();
    let mut two = make(false);
    fzs::merge::flatten_includes(&mut two).unwrap();
    let names = |p: &Plugin| p.fns.iter().map(|f| f.name.clone()).collect::<Vec<_>>();
    assert_eq!(names(&one[0]), vec!["x", "c", "y"]);
    assert_eq!(names(&two[2]), vec!["x", "c", "y"]);
    assert_eq!(names(&one[1]), names(&two[1]));
}
