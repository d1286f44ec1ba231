use photoviewer::config::{
    config_dir_from, load, load_from, no_config_dir_message, save, save_to, Config, ConfigDir, SaveError, WindowGeometry,
};
use std::cell::RefCell;
use std::path::PathBuf;

fn to_path(dir: ConfigDir) -> PathBuf {
    match dir.child {
        Some(child) => PathBuf::from(dir.base).join(child),
        None => PathBuf::from(dir.base),
    }
}

/// The text of a configuration.
fn render(config: &Config) -> Result<String, String> {
    let mut table = toml::Table::new();
    table.insert("fullscreen".to_string(), toml::Value::Boolean(config.fullscreen));
    if let Some(g) = config.geometry {
        let mut geometry = toml::Table::new();
        geometry.insert("x".to_string(), toml::Value::Integer(g.x as i64));
        geometry.insert("y".to_string(), toml::Value::Integer(g.y as i64));
        geometry.insert("w".to_string(), toml::Value::Integer(g.w as i64));
        geometry.insert("h".to_string(), toml::Value::Integer(g.h as i64));
        table.insert("geometry".to_string(), toml::Value::Table(geometry));
    }
    toml::to_string(&table).map_err(|e| e.to_string())
}

/// The configuration that a text stands for.
fn parse(text: String) -> Option<Config> {
    let table: toml::Table = toml::from_str(&text).ok()?;
    let fullscreen = table.get("fullscreen")?.as_bool()?;
    let geometry = match table.get("geometry") {
        None => None,
        Some(g) => {
            let number = |key: &str| g.get(key).and_then(|v| v.as_integer());
            Some(WindowGeometry {
                x: i32::try_from(number("x")?).ok()?,
                y: i32::try_from(number("y")?).ok()?,
                w: u32::try_from(number("w")?).ok()?,
                h: u32::try_from(number("h")?).ok()?,
            })
        },
    };
    Some(Config { geometry, fullscreen })
}

#[test]
fn config_dir_pvc_home_wins() {
    for windows in [false, true] {
        let dir = config_dir_from(windows, |k| match k {
            "PVC_HOME" => Some("/custom/pvc".into()),
            "APPDATA" => Some("C:\\Users\\user\\AppData\\Roaming".into()),
            "HOME" => Some("/home/user".into()),
            _ => None,
        });
        assert_eq!(dir.map(to_path), Some(PathBuf::from("/custom/pvc")));
    }
}

#[test]
fn config_dir_fallback_platform() {
    let dir = config_dir_from(true, |k| match k {
        "PVC_HOME" => None,
        "APPDATA" => Some("C:\\Users\\user\\AppData\\Roaming".into()),
        _ => None,
    });
    let dir = dir.unwrap();
    assert_eq!(
        format!("{}\\{}", dir.base, dir.child.unwrap()),
        "C:\\Users\\user\\AppData\\Roaming\\PhotoViewerClassic"
    );

    let dir = config_dir_from(false, |k| match k {
        "PVC_HOME" => None,
        "HOME" => Some("/home/user".into()),
        _ => None,
    });
    assert_eq!(dir.map(to_path), Some(PathBuf::from("/home/user/.config/pvc")));
}

#[test]
fn config_dir_none_when_base_absent() {
    for windows in [false, true] {
        let dir = config_dir_from(windows, |_| None);
        assert_eq!(dir, None);
    }
}

#[test]
fn config_dir_ignores_the_other_platform() {
    let dir = config_dir_from(false, |k| if k == "APPDATA" { Some("x".to_string()) } else { None });
    assert_eq!(dir, None);
    let dir = config_dir_from(true, |k| if k == "HOME" { Some("x".to_string()) } else { None });
    assert_eq!(dir, None);
}

#[test]
fn corrupt_toml_yields_default() {
    let loaded = load_from(|| Some("this is ][[ not valid toml !!!".to_string()), parse);
    assert_eq!(loaded, Config::default());
}

#[test]
fn save_load_round_trip() {
    let file: RefCell<Option<String>> = RefCell::new(None);
    let cfg = Config {
        geometry: Some(WindowGeometry { x: -5, y: 0, w: 1920, h: 1080 }),
        fullscreen: false,
    };
    let saved = save_to(&cfg, || Ok(()), render, |text| {
        *file.borrow_mut() = Some(text);
        Ok(())
    });
    assert_eq!(saved, Ok(()));
    let loaded = load_from(|| file.borrow().clone(), parse);
    assert_eq!(cfg, loaded);
}

#[test]
fn missing_file_yields_default() {
    assert_eq!(load_from(|| None, parse), Config::default());
    assert_eq!(Config::default(), Config { geometry: None, fullscreen: false });
    assert_eq!(WindowGeometry::default(), WindowGeometry { x: 0, y: 0, w: 0, h: 0 });
}

#[test]
fn saving_stops_at_the_first_failure() {
    let steps: RefCell<Vec<&str>> = RefCell::new(Vec::new());
    let cfg = Config::default();
    let run = |failing: &str| {
        steps.borrow_mut().clear();
        save_to(
            &cfg,
            || {
                steps.borrow_mut().push("create");
                if failing == "create" { Err("no directory".to_string()) } else { Ok(()) }
            },
            |c| {
                steps.borrow_mut().push("render");
                if failing == "render" { Err("no text".to_string()) } else { render(c) }
            },
            |_| {
                steps.borrow_mut().push("write");
                if failing == "write" { Err("no space".to_string()) } else { Ok(()) }
            },
        )
    };
    assert_eq!(run("create"), Err("no directory".to_string()));
    assert_eq!(*steps.borrow(), vec!["create"]);
    assert_eq!(run("render"), Err("no text".to_string()));
    assert_eq!(*steps.borrow(), vec!["create", "render"]);
    assert_eq!(run("write"), Err("no space".to_string()));
    assert_eq!(*steps.borrow(), vec!["create", "render", "write"]);
    assert_eq!(run(""), Ok(()));
}

#[test]
fn no_directory_is_an_error_to_save_and_default_to_load() {
    let cfg = Config { geometry: None, fullscreen: true };
    let none: Option<String> = None;
    let saved = save(&cfg, none.clone(), |_, _| Ok::<(), String>(()));
    assert_eq!(saved, Err(SaveError::NoConfigDir));
    assert_eq!(
        no_config_dir_message(),
        "config directory could not be determined (PVC_HOME / HOME / APPDATA not set)"
    );
    assert_eq!(load(none, |_| cfg), Config::default());

    let dir = Some("/custom/pvc".to_string());
    assert_eq!(save(&cfg, dir.clone(), |d, c| {
        assert_eq!(d, "/custom/pvc");
        assert!(c.fullscreen);
        Ok::<(), String>(())
    }), Ok(()));
    assert_eq!(
        save(&cfg, dir.clone(), |_, _| Err("no space".to_string())),
        Err(SaveError::Failed("no space".to_string()))
    );
    assert_eq!(load(dir, |_| cfg), cfg);
}
