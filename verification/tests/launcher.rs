use octoterm::launcher::builtin::Builtin;
use octoterm::launcher::{discover_all, providers, Launcher, LauncherProvider, PER_PROVIDER_CAP};

struct Fixed(&'static str, Vec<Launcher>);
impl LauncherProvider for Fixed {
    fn id(&self) -> &'static str {
        self.0
    }
    fn discover(&self) -> anyhow::Result<Vec<Launcher>> {
        Ok(self.1.clone())
    }
}

struct Broken;
impl LauncherProvider for Broken {
    fn id(&self) -> &'static str {
        "broken"
    }
    fn discover(&self) -> anyhow::Result<Vec<Launcher>> {
        Err(anyhow::Error::msg("配置文件坏了"))
    }
}

fn l(provider: &'static str, id: &str) -> Launcher {
    Launcher::new(provider, id, id, vec!["sh".into()])
}

#[test]
fn broken_provider_does_not_take_down_the_others() {
    let ps: Vec<Box<dyn LauncherProvider>> =
        vec![Box::new(Broken), Box::new(Fixed("a", vec![l("a", "x")]))];
    let out = discover_all(&ps);
    assert_eq!(out.len(), 1);
    assert_eq!(out[0].id, "a:x");
}

#[test]
fn duplicate_ids_keep_the_first_provider_wins() {
    let ps: Vec<Box<dyn LauncherProvider>> = vec![
        Box::new(Fixed("a", vec![Launcher::new("a", "x", "先来的", vec!["sh".into()])])),
        Box::new(Fixed("a", vec![Launcher::new("a", "x", "后来的", vec!["sh".into()])])),
    ];
    let out = discover_all(&ps);
    assert_eq!(out.len(), 1);
    assert_eq!(out[0].name, "先来的");
}

#[test]
fn per_provider_cap_truncates() {
    let many = (0..PER_PROVIDER_CAP + 10).map(|i| l("a", &i.to_string())).collect();
    let ps: Vec<Box<dyn LauncherProvider>> = vec![Box::new(Fixed("a", many))];
    assert_eq!(discover_all(&ps).len(), PER_PROVIDER_CAP);
}

#[test]
fn builtin_is_always_first_and_never_empty() {
    let ps = providers(&[], Builtin::unix(None), Vec::new());
    assert_eq!(ps[0].id(), "builtin");
    let out = discover_all(&ps);
    assert!(!out.is_empty(), "至少要有内置默认 shell");
    assert_eq!(out[0].provider, "builtin");
}

#[test]
fn merged_menu_keeps_first_of_each_id_across_providers() {
    let ps: Vec<Box<dyn LauncherProvider>> = vec![
        Box::new(Fixed("a", vec![l("a", "x"), l("a", "y"), l("a", "x")])),
        Box::new(Broken),
        Box::new(Fixed("b", vec![l("a", "y"), l("b", "z")])),
    ];
    let ids: Vec<String> = discover_all(&ps).into_iter().map(|l| l.id).collect();
    assert_eq!(ids, ["a:x", "a:y", "b:z"]);
}

#[test]
fn launcher_new_joins_the_argv_into_the_detail() {
    let l = Launcher::new("p", "id", "Name", vec!["ssh".into(), "prod01".into()]);
    assert_eq!(l.id, "p:id");
    assert_eq!(l.detail, "ssh prod01");
    assert_eq!(l.cwd, None);
    let l = l.with_detail("raw text".to_string()).with_cwd(Some("/w".into()));
    assert_eq!(l.detail, "raw text");
    assert_eq!(l.cwd.as_deref(), Some("/w"));
}

#[test]
fn providers_put_the_builtin_first_then_the_user_entries_then_the_scanners() {
    let specs = vec![octoterm::config::LauncherSpec { name: "top".into(), command: vec!["top".into()], cwd: None }];
    let scanners: Vec<Box<dyn LauncherProvider>> = vec![Box::new(Fixed("a", vec![])), Box::new(Broken)];
    let ps = providers(&specs, Builtin::unix(None), scanners);
    let ids: Vec<&str> = ps.iter().map(|p| p.id()).collect();
    assert_eq!(ids, vec!["builtin", "config", "a", "broken"]);
    let ps = providers(&[], Builtin::unix(None), vec![Box::new(Broken)]);
    let ids: Vec<&str> = ps.iter().map(|p| p.id()).collect();
    assert_eq!(ids, vec!["builtin", "broken"]);
}

#[test]
fn the_builtin_provider_hands_out_what_it_found() {
    let b = Builtin::unix(Some("/bin/zsh".into()));
    let first = b.discover().unwrap();
    let second = b.discover().unwrap();
    assert_eq!(first, second);
    assert!(!first.is_empty());
}

#[test]
fn the_user_provider_exists_only_with_entries_and_holds_them_all() {
    assert!(octoterm::launcher::user_config_provider(&[]).is_none());
    let specs = vec![
        octoterm::config::LauncherSpec { name: "top".into(), command: vec!["top".into()], cwd: None },
        octoterm::config::LauncherSpec { name: "sh".into(), command: vec!["sh".into(), "-l".into()], cwd: Some("~/w".into()) },
    ];
    let copy = octoterm::launcher::copy_specs(&specs);
    assert_eq!(copy, specs);
    let u = octoterm::launcher::user_config_provider(&specs).unwrap();
    assert_eq!(u.id(), "config");
    let found = u.discover().unwrap();
    assert_eq!(found.len(), 2);
    assert_eq!(found[1].command, vec!["sh".to_string(), "-l".to_string()]);
}
