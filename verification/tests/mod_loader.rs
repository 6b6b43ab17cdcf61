use gc1805::mod_loader::{pick_source, FileSource, ModLoader, ModManifest};
use std::path::PathBuf;

fn manifest(id: &str, overrides: &[&str]) -> ModManifest {
    ModManifest {
        id: id.to_string(),
        name: id.to_string(),
        version: "1.0.0".to_string(),
        description: String::new(),
        overrides: overrides.iter().map(|s| s.to_string()).collect(),
    }
}

fn loader(active: &[&str]) -> ModLoader {
    let mut l = ModLoader::new(PathBuf::from("data"), PathBuf::from("mods"));
    l.active_mods = active.iter().map(|s| s.to_string()).collect();
    l
}

#[test]
fn base_when_no_mod_overrides() {
    let l = loader(&[]);
    let c = l.override_candidates(&vec![], "tables/economy.json");
    assert!(c.is_empty());
    assert_eq!(l.resolve_source("tables/economy.json", &c, &vec![]), FileSource::Base);
}

#[test]
fn last_active_mod_is_tried_first() {
    let l = loader(&["alpha", "bravo"]);
    let ms = vec![manifest("alpha", &["tables/economy.json"]), manifest("bravo", &["tables/economy.json"])];
    let c = l.override_candidates(&ms, "tables/economy.json");
    assert_eq!(c, vec!["bravo".to_string(), "alpha".to_string()]);
    assert_eq!(
        l.resolve_source("tables/economy.json", &c, &vec![true, true]),
        FileSource::Mod("bravo".to_string())
    );
    assert_eq!(
        l.resolve_source("tables/economy.json", &c, &vec![false, true]),
        FileSource::Mod("alpha".to_string())
    );
    assert_eq!(l.resolve_source("tables/economy.json", &c, &vec![false, false]), FileSource::Base);
}

#[test]
fn missing_manifest_falls_back_to_base() {
    let l = loader(&["missing_mod"]);
    let c = l.override_candidates(&vec![], "tables/economy.json");
    assert!(c.is_empty());
    assert_eq!(l.resolve_source("tables/economy.json", &c, &vec![]), FileSource::Base);
}

#[test]
fn absolute_path_is_taken_as_given() {
    let l = loader(&[]);
    assert_eq!(l.resolve_source("/srv/data/tables/economy.json", &vec![], &vec![]), FileSource::AsGiven);
    assert_eq!(pick_source(true, &vec!["alpha".to_string()], &vec![true]), FileSource::AsGiven);
}
