use ansible_vault_lsp::config::{settings_section, PromptBackendSetting, Settings};
use ansible_vault_lsp::paths::{
    components_of, is_absolute, is_within, join_path, parent_of, same_place, worktree_for,
};
use ansible_vault_lsp::workspace::{changed_roots, initial_roots, CurrentSettings};
use serde_json::Value;
use std::path::Path;

fn json(text: &str) -> Value {
    serde_json::from_str(text).expect("JSON")
}

/// The settings in a JSON object. It stands in for the reader in `app/wire.rs`.
fn read(value: &Value) -> Result<Settings, String> {
    let object = value.as_object().ok_or("not an object")?;
    let mut settings = Settings::default();
    for (name, member) in object {
        match name.as_str() {
            "executable" => settings.executable = member.as_str().ok_or("executable")?.to_string(),
            "passwordFile" => settings.password_file = member.as_str().map(str::to_string),
            "vaultId" => settings.vault_id = member.as_str().map(str::to_string),
            "promptBackend" => {
                settings.prompt_backend = match member.as_str() {
                    Some("auto") => PromptBackendSetting::Auto,
                    Some("zenity") => PromptBackendSetting::Zenity,
                    _ => return Err("promptBackend".to_string()),
                }
            }
            other => return Err(format!("unknown field `{other}`")),
        }
    }
    Ok(settings)
}

fn from_lsp_value(value: Value) -> Result<Settings, String> {
    let section = settings_section(value);
    Settings::from_lsp_value(Some(read(&section))).map_err(|error| error.message())
}

#[test]
fn parses_nested_zed_settings() {
    let settings = from_lsp_value(json(
        r#"{"ansibleVault": {"executable": "/opt/bin/ansible-vault", "passwordFile": ".vault-pass", "vaultId": "dev", "promptBackend": "zenity"}}"#,
    ))
    .expect("valid settings");
    assert_eq!(settings.executable, "/opt/bin/ansible-vault");
    assert_eq!(settings.password_file.as_deref(), Some(".vault-pass"));
    assert_eq!(settings.vault_id.as_deref(), Some("dev"));
    assert_eq!(settings.prompt_backend, PromptBackendSetting::Zenity);
}

#[test]
fn resolves_relative_password_file_from_worktree() {
    let settings = Settings {
        password_file: Some("secrets/vault-pass".into()),
        ..Settings::default()
    };
    assert_eq!(
        settings
            .resolve_password_file("/workspace")
            .expect("path")
            .as_deref(),
        Some("/workspace/secrets/vault-pass")
    );
}

#[test]
fn rejects_secret_values_and_invalid_vault_ids_in_settings_shape() {
    assert!(from_lsp_value(json(r#"{"ansibleVault": {"password": "must-not-be-supported"}}"#)).is_err());
    assert!(from_lsp_value(json(r#"{"ansibleVault": {"vaultId": "dev@password"}}"#)).is_err());
}

#[test]
fn sections_are_found_by_name() {
    assert_eq!(settings_section(json(r#"{"ansibleVault": 5, "x": 1}"#)), json("5"));
    assert_eq!(settings_section(json(r#"{"x": 1}"#)), json(r#"{"x": 1}"#));
    assert_eq!(settings_section(json(r#"["ansibleVault"]"#)), json(r#"["ansibleVault"]"#));
    assert_eq!(settings_section(json("null")), json("null"));
}

#[test]
fn says_what_is_wrong_with_settings() {
    assert_eq!(
        Settings::from_lsp_value(Some(Err("bad".to_string()))).expect_err("refused").message(),
        "Invalid ansibleVault settings: bad"
    );
    for id in ["", "  ", "a@b"] {
        let settings = Settings {
            vault_id: Some(id.to_string()),
            ..Settings::default()
        };
        assert_eq!(
            Settings::from_lsp_value(Some(Ok(settings))).expect_err("refused").message(),
            "ansibleVault.vaultId must be a non-empty label without '@'"
        );
    }
    let defaults = Settings::from_lsp_value(None).expect("defaults");
    assert_eq!(defaults, Settings::default());
    assert_eq!(defaults.executable, "ansible-vault");
    assert_eq!(defaults.prompt_backend, PromptBackendSetting::default());
}

#[test]
fn password_files_are_resolved_from_home_and_worktree() {
    let at = |path: &str| Settings {
        password_file: Some(path.to_string()),
        ..Settings::default()
    };
    let home = || Some("/home/me".to_string());
    let resolve = |path: &str, home: Option<String>| {
        at(path)
            .resolve_password_file_from("/work", home)
            .map_err(|error| error.message())
    };
    assert_eq!(resolve("~", home()), Ok(Some("/home/me".to_string())));
    assert_eq!(resolve("~/pw", home()), Ok(Some("/home/me/pw".to_string())));
    assert_eq!(resolve("~x", home()), Ok(Some("/work/~x".to_string())));
    assert_eq!(resolve("/abs", None), Ok(Some("/abs".to_string())));
    assert_eq!(resolve("~/pw", None), Err("Cannot resolve the home directory".to_string()));
    assert_eq!(resolve("~", None), Err("Cannot resolve the home directory".to_string()));
    assert_eq!(
        resolve(" ", home()),
        Err("ansibleVault.passwordFile must not be empty".to_string())
    );
    assert_eq!(
        Settings::default().resolve_password_file_from("/work", None).expect("none"),
        None
    );
    assert_eq!(
        at("/abs/pw").resolve_password_file("/work").expect("path").as_deref(),
        Some("/abs/pw")
    );
    let under_home = at("~/pw").resolve_password_file("/work");
    match under_home {
        Ok(Some(path)) => assert!(path.ends_with("/pw") && path != "/work/~/pw"),
        Ok(None) => panic!("a path was configured"),
        Err(error) => assert_eq!(error.message(), "Cannot resolve the home directory"),
    }
}

fn all_paths(longest: usize) -> Vec<String> {
    let mut out = vec![String::new()];
    let mut level = vec![String::new()];
    for _ in 0..longest {
        let mut next = Vec::new();
        for text in &level {
            for c in "/.ab".chars() {
                let mut longer = text.clone();
                longer.push(c);
                next.push(longer);
            }
        }
        out.extend(next.iter().cloned());
        level = next;
    }
    out
}

#[test]
fn paths_agree_with_the_standard_library() {
    for text in all_paths(6) {
        let path = Path::new(&text);
        let chars: Vec<char> = text.chars().collect();
        assert_eq!(is_absolute(&text), path.is_absolute(), "{text}");
        let components: Vec<String> = path
            .components()
            .map(|part| part.as_os_str().to_string_lossy().into_owned())
            .collect();
        let found: Vec<String> = components_of(&chars)
            .into_iter()
            .map(|part| part.into_iter().collect())
            .collect();
        assert_eq!(found, components, "{text}");
        assert_eq!(
            parent_of(&text),
            path.parent().map(|parent| parent.to_string_lossy().into_owned()),
            "{text}"
        );
    }
    for a in all_paths(4) {
        for b in all_paths(3) {
            let joined = Path::new(&a).join(&b).to_string_lossy().into_owned();
            assert_eq!(join_path(&a, &b), joined);
            assert_eq!(is_within(&a, &b), Path::new(&a).starts_with(&b), "{a} {b}");
            assert_eq!(same_place(&a, &b), Path::new(&a) == Path::new(&b), "{a} {b}");
        }
    }
}

#[test]
fn worktrees_are_the_deepest_roots() {
    let roots = vec!["/a".to_string(), "/a/b".to_string(), "/a/b/".to_string(), "/c".to_string()];
    assert_eq!(worktree_for("/a/b/x.yml", &roots), "/a/b/");
    assert_eq!(worktree_for("/a/x.yml", &roots), "/a");
    assert_eq!(worktree_for("/ab/x.yml", &roots), "/ab");
    assert_eq!(worktree_for("/", &Vec::new()), ".");
    assert_eq!(worktree_for("x.yml", &Vec::new()), "");
}

#[test]
fn folders_are_added_and_removed_once() {
    let roots = initial_roots(vec!["/a".to_string(), "/a".to_string()], Some("/a/".to_string()));
    assert_eq!(roots, vec!["/a", "/a"]);
    let roots = initial_roots(vec!["/a".to_string()], Some("/b".to_string()));
    assert_eq!(roots, vec!["/a", "/b"]);
    assert_eq!(initial_roots(Vec::new(), None), Vec::<String>::new());
    let changed = changed_roots(
        roots,
        &vec!["/a/.".to_string()],
        &vec!["/b".to_string(), "/c".to_string(), "/c/".to_string()],
    );
    assert_eq!(changed, vec!["/b", "/c"]);
}

#[test]
fn refused_settings_leave_the_old_ones_in_force() {
    let mut current = CurrentSettings::new();
    assert_eq!(current.settings, Settings::default());
    let good = Settings {
        vault_id: Some("dev".to_string()),
        ..Settings::default()
    };
    assert_eq!(current.configure(Settings::from_lsp_value(Some(Ok(good.clone())))), None);
    assert_eq!(current.settings, good);
    let shown = current.configure(Settings::from_lsp_value(Some(Err("x".to_string()))));
    assert_eq!(shown.as_deref(), Some("Invalid ansibleVault settings: x"));
    assert_eq!(current.error, shown);
    assert_eq!(current.settings, good);
    assert_eq!(current.configure(Ok(Settings::default())), None);
    assert_eq!(current.error, None);
}
