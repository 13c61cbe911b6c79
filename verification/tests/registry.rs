use rime::registry::{theme_key, toml_file_name, toml_stem, NamedTheme, ThemeRegistry};

struct Mini(String);

impl NamedTheme for Mini {
    fn theme_name(&self) -> &str {
        &self.0
    }
    fn to_toml(&self) -> String {
        self.0.clone()
    }
}

fn registry() -> ThemeRegistry<String> {
    ThemeRegistry::new(vec!["Base".into()], Vec::new(), Some("/themes".to_string()))
}

#[test]
fn builtins_are_listed_and_read_only() {
    let r = registry();
    assert_eq!(r.names(), &["Base".to_string()]);
    assert!(r.is_builtin("Base"));
    assert!(r.is_builtin("base"));
    assert!(!r.is_builtin("Custom"));
    assert_eq!(r.user_path("base"), None);
    assert_eq!(r.user_dir(), Some(&"/themes".to_string()));
}

#[test]
fn registering_lists_and_resolves_at_once() {
    let mut r = registry();
    let theme = Mini("Custom".into());
    r.register(theme.theme_name(), "/themes/Custom.toml".to_string());
    assert!(r.names().iter().any(|n| n == "Custom"));
    assert!(!r.is_builtin("Custom"));
    assert_eq!(r.user_path("custom"), Some(&"/themes/Custom.toml".to_string()));
    assert_eq!(theme.to_toml(), "Custom");

    r.forget("Custom");
    assert!(!r.names().iter().any(|n| n == "Custom"));
    assert_eq!(r.user_path("Custom"), None);
}

#[test]
fn forgetting_a_user_override_keeps_the_builtin() {
    let mut r = registry();
    r.register("Base", "/themes/Base.toml".to_string());
    assert_eq!(r.names().len(), 1, "no duplicate entry for the override");
    assert_eq!(r.user_path("base"), Some(&"/themes/Base.toml".to_string()));

    r.forget("Base");
    assert!(r.is_builtin("base"));
    assert_eq!(r.names(), &["Base".to_string()]);
    assert_eq!(r.user_path("base"), None);
}

#[test]
fn files_found_at_start_are_registered_in_order() {
    let files = vec![
        ("Zeta".to_string(), "/t/Zeta.toml".to_string()),
        ("base".to_string(), "/t/base.toml".to_string()),
        ("zeta".to_string(), "/t/zeta.toml".to_string()),
    ];
    let r = ThemeRegistry::new(vec!["Base".into()], files, None);
    assert_eq!(r.names(), &["Base".to_string(), "Zeta".to_string()]);
    assert_eq!(r.user_path("ZETA"), Some(&"/t/zeta.toml".to_string()));
    assert_eq!(r.user_path("Base"), Some(&"/t/base.toml".to_string()));
    assert_eq!(r.user_dir(), None);
}

#[test]
fn registering_twice_replaces_the_file() {
    let mut r = registry();
    r.register("Night", "/a".to_string());
    r.register("NIGHT", "/b".to_string());
    assert_eq!(r.names().len(), 2);
    assert_eq!(r.user_path("night"), Some(&"/b".to_string()));
}

#[test]
fn theme_keys_are_lowercase() {
    assert_eq!(theme_key("Solarized Dark"), "solarized dark");
    assert_eq!(theme_key("ÄBC"), "äbc");
}

#[test]
fn only_toml_files_name_a_theme() {
    assert_eq!(toml_stem("Nord.toml").as_deref(), Some("Nord"));
    assert_eq!(toml_stem("my.theme.toml").as_deref(), Some("my.theme"));
    assert_eq!(toml_stem("..toml").as_deref(), Some("."));
    assert_eq!(toml_stem("é.toml").as_deref(), Some("é"));
    assert_eq!(toml_stem(".toml"), None);
    assert_eq!(toml_stem("Nord.TOML"), None);
    assert_eq!(toml_stem("Nord.toml.bak"), None);
    assert_eq!(toml_stem("Nord"), None);
    assert_eq!(toml_stem("toml"), None);
    assert_eq!(toml_stem(""), None);
}

#[test]
fn a_saved_theme_file_is_found_under_its_name() {
    assert_eq!(toml_file_name("Custom"), "Custom.toml");
    for name in ["Custom", "a.b", ".", "é"] {
        assert_eq!(toml_stem(&toml_file_name(name)).as_deref(), Some(name));
    }
    assert_eq!(toml_stem(&toml_file_name("")), None);
}

fn resolve_builtin(k: &str) -> Option<Mini> {
    if k == "base" {
        Some(Mini("Base".into()))
    } else {
        None
    }
}

fn fallback() -> Mini {
    Mini("Base".into())
}

/// Resolution as the host does it: a user file first (its text stands in for
/// the parsed theme here), then the built-in under the lowercase key, then the
/// fallback.
fn get(r: &ThemeRegistry<String>, name: &str) -> Mini {
    if let Some(text) = r.user_path(name) {
        return Mini(text.trim().to_string());
    }
    resolve_builtin(&theme_key(name)).unwrap_or_else(fallback)
}

fn mini_registry(dir: Option<String>) -> ThemeRegistry<String> {
    ThemeRegistry::new(vec!["Base".into()], Vec::new(), dir)
}

#[test]
fn registry_builtins_resolve_and_are_readonly() {
    let r = mini_registry(None);
    assert_eq!(get(&r, "base").0, "Base");
    assert_eq!(get(&r, "nope").0, "Base"); // fallback
    assert!(r.is_builtin("Base"));
    assert!(r.is_builtin("base")); // case-insensitive
    assert!(!r.is_builtin("Custom"));
}

#[test]
fn registry_tests_builtins_resolve_and_are_readonly() {
    let r = mini_registry(None);
    assert_eq!(get(&r, "base").0, "Base");
    assert_eq!(get(&r, "nope").0, "Base"); // fallback
    assert!(r.is_builtin("Base"));
    assert!(r.is_builtin("base")); // case-insensitive
    assert!(!r.is_builtin("Custom"));
}

#[test]
fn a_user_file_overrides_the_builtin_of_the_same_name() {
    let mut r = mini_registry(Some("/themes".into()));
    r.register("BASE", "Night".to_string());
    assert_eq!(get(&r, "base").0, "Night");
    r.forget("Base");
    assert_eq!(get(&r, "base").0, "Base");
}

#[test]
fn built_ins_stay_listed_and_names_stay_distinct_across_calls() {
    let mut r = ThemeRegistry::new(vec!["Base".into(), "Nord".into()], Vec::new(), None);
    r.register("base", "/t/base.toml".to_string());
    r.register("Custom", "/t/Custom.toml".to_string());
    r.register("CUSTOM", "/t/CUSTOM.toml".to_string());
    r.forget("NORD");
    r.forget("custom");
    r.forget("Base");
    let names: Vec<String> = r.names().iter().map(|n| n.to_lowercase()).collect();
    assert_eq!(names, vec!["base".to_string(), "nord".to_string()]);
}
