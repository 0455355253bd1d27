use ncspot_core::paths::{
    cache_path, config_path, set_configuration_base_path, try_proj_dirs, user_cache_directory,
    user_configuration_directory, Environment, FilePath,
};

fn path(text: &str) -> FilePath {
    FilePath::new(text.as_bytes())
}

fn environment(config: Option<&str>, cache: Option<&str>, home: Option<&str>) -> Environment {
    Environment {
        base_path: None,
        xdg_config_home: config.map(path),
        xdg_cache_home: cache.map(path),
        home: home.map(path),
    }
}

#[test]
fn directories_of_the_environment() {
    let env = environment(Some("/c"), None, Some("/home/me"));
    let dirs = try_proj_dirs(&env).unwrap();
    assert_eq!(dirs.config_dir, path("/c/ncspot"));
    assert_eq!(dirs.cache_dir, path("/home/me/.cache/ncspot"));
    assert_eq!(config_path(&env, b"config.toml"), Some(path("/c/ncspot/config.toml")));
    assert_eq!(
        cache_path(&env, b"covers-sixel"),
        Some(path("/home/me/.cache/ncspot/covers-sixel"))
    );
    assert_eq!(config_path(&env, b"/etc/x"), Some(path("/etc/x")));
}

#[test]
fn empty_variables_are_not_set() {
    let env = environment(Some(""), Some(""), Some("/home/me/"));
    assert_eq!(
        user_configuration_directory(&env),
        Some(path("/home/me/.config/ncspot"))
    );
    assert_eq!(
        user_cache_directory(&env),
        Some(path("/home/me/.cache/ncspot"))
    );
}

#[test]
fn directories_that_cannot_be_told() {
    let env = environment(None, Some("/k"), None);
    assert_eq!(
        try_proj_dirs(&env),
        Err("Couldn't determine config directory".to_string())
    );
    let env = environment(Some("/c"), None, None);
    assert_eq!(
        try_proj_dirs(&env),
        Err("Couldn't determine cache directory".to_string())
    );
    let env = environment(None, None, None);
    assert_eq!(user_configuration_directory(&env), None);
    assert_eq!(user_cache_directory(&env), None);
    assert_eq!(config_path(&env, b"x"), None);
    assert_eq!(cache_path(&env, b"x"), None);
}

#[test]
fn each_directory_is_told_by_itself() {
    let env = environment(Some("/c"), None, None);
    assert_eq!(user_configuration_directory(&env), Some(path("/c/ncspot")));
    assert_eq!(config_path(&env, b"x"), Some(path("/c/ncspot/x")));
    assert_eq!(user_cache_directory(&env), None);
    let env = environment(None, Some("/k"), None);
    assert_eq!(user_cache_directory(&env), Some(path("/k/ncspot")));
    assert_eq!(cache_path(&env, b"x"), Some(path("/k/ncspot/x")));
    assert_eq!(user_configuration_directory(&env), None);
}

#[test]
fn a_base_path_wins() {
    let mut env = environment(Some("/c"), Some("/k"), Some("/home/me"));
    set_configuration_base_path(&mut env, None);
    assert_eq!(env.base_path, None);
    set_configuration_base_path(&mut env, Some(path("/base")));
    set_configuration_base_path(&mut env, None);
    assert_eq!(
        user_configuration_directory(&env),
        Some(path("/base/.config"))
    );
    assert_eq!(user_cache_directory(&env), Some(path("/base/.cache")));
}
