use easytier_gui::fangame::FangameDetectResult;
use easytier_gui::registry::{
    allow_result, audio_dest, embedded_plugin, entry_by_id, install_entry_id,
    install_incomplete_message, install_message, install_plan, join_strings, lang_from,
    match_registry, missing_plugins, native_rel, plugin_bases, plugin_dest, plugin_file_name,
    title_text, validate_entry, AllowProbe, DestDir, EmbeddedPlugin, EntryProbe,
    FangameAllowEntry, FangameAllowResult, FangameRegistry, Lang,
};

fn strings(items: &[&str]) -> Vec<String> {
    items.iter().map(|s| s.to_string()).collect()
}

fn entry() -> FangameAllowEntry {
    FangameAllowEntry {
        id: "infinite_fusion".to_string(),
        display_name: "Pokemon Infinite Fusion".to_string(),
        title_exact: "Pokemon Infinite Fusion".to_string(),
        exe_size_min: 100,
        exe_size_max: 5000,
        required_files: strings(&["Game.exe", "Game.ini"]),
        required_dirs: strings(&["Data", "Graphics"]),
        required_any_files: vec![strings(&["Data/Scripts.rxdata", "Game.rgssad"])],
        plugins: Vec::new(),
        plugins_source: String::new(),
        audio_source: String::new(),
        plugin_dest: String::new(),
        audio_dest: String::new(),
        audio_files: Vec::new(),
    }
}

fn registry() -> FangameRegistry {
    FangameRegistry { version: 1, allowed: vec![entry()] }
}

fn all_present() -> EntryProbe {
    EntryProbe {
        dirs_present: vec![true, true],
        files_present: vec![true, true],
        any_present: vec![vec![false, true]],
    }
}

fn detected(ok: bool, title: Option<&str>, size: u64) -> FangameDetectResult {
    FangameDetectResult {
        root: "/g".to_string(),
        game_exe: Some("/g/Game.exe".to_string()),
        game_exe_size: size,
        game_title: title.map(|t| t.to_string()),
        has_data_dir: true,
        data_dir: Some("/g/Data".to_string()),
        scripts_rxdata: None,
        game_rgssad: None,
        mode: "unknown".to_string(),
        ok,
        message: if ok { "OK".to_string() } else { "Game.exe introuvable".to_string() },
        cancelled: false,
    }
}

#[test]
fn lang_from_prefix() {
    assert_eq!(lang_from("en"), Lang::En);
    assert_eq!(lang_from("EN-us"), Lang::En);
    assert_eq!(lang_from("English"), Lang::En);
    assert_eq!(lang_from("FR"), Lang::Fr);
    assert_eq!(lang_from(""), Lang::Fr);
    assert_eq!(lang_from("de"), Lang::Fr);
}

#[test]
fn lang_code_and_other() {
    assert_eq!(Lang::En.code(), "EN");
    assert_eq!(Lang::Fr.code(), "FR");
    assert_eq!(Lang::En.other(), Lang::Fr);
    assert_eq!(Lang::Fr.other(), Lang::En);
}

#[test]
fn embedded_plugins_known_and_unknown() {
    assert_eq!(embedded_plugin("FGL_Battle", Lang::Fr), Ok(EmbeddedPlugin::BattleFr));
    assert_eq!(embedded_plugin("FGL_Battle", Lang::En), Ok(EmbeddedPlugin::BattleEn));
    assert_eq!(embedded_plugin("FGL_Trade", Lang::Fr), Ok(EmbeddedPlugin::TradeFr));
    assert_eq!(embedded_plugin("FGL_Net", Lang::En), Ok(EmbeddedPlugin::NetEn));
    assert_eq!(
        embedded_plugin("FGL_Chat", Lang::En),
        Err("plugin inconnu: FGL_Chat_EN".to_string())
    );
}

#[test]
fn plugin_bases_default_and_listed() {
    let e = entry();
    assert_eq!(plugin_bases(&e), strings(&["FGL_Battle", "FGL_Trade", "FGL_Net"]));
    let mut e2 = entry();
    e2.plugins = strings(&["FGL_Net"]);
    assert_eq!(plugin_bases(&e2), strings(&["FGL_Net"]));
}

#[test]
fn plugin_file_names() {
    assert_eq!(plugin_file_name("FGL_Battle", Lang::Fr), "FGL_Battle_FR.rb");
    assert_eq!(plugin_file_name("FGL_Net", Lang::En), "FGL_Net_EN.rb");
}

#[test]
fn destinations() {
    assert_eq!(native_rel("Data/Scripts/x", '\\'), "Data\\Scripts\\x");
    let e = entry();
    assert!(matches!(plugin_dest(&e, '/'), DestDir::Default));
    assert!(matches!(audio_dest(&e, '/'), DestDir::Default));
    let mut e2 = entry();
    e2.plugin_dest = "Mods/Plugins".to_string();
    e2.audio_dest = "Audio/ME".to_string();
    match plugin_dest(&e2, '\\') {
        DestDir::Relative(p) => assert_eq!(p, "Mods\\Plugins"),
        DestDir::Default => panic!("expected a relative folder"),
    }
    match audio_dest(&e2, '/') {
        DestDir::Relative(p) => assert_eq!(p, "Audio/ME"),
        DestDir::Default => panic!("expected a relative folder"),
    }
}

#[test]
fn missing_plugin_files() {
    let bases = strings(&["FGL_Battle", "FGL_Trade", "FGL_Net"]);
    let (ok, missing) = missing_plugins(&bases, Lang::Fr, &vec![true, false, true]);
    assert!(!ok);
    assert_eq!(missing, strings(&["FGL_Trade_FR.rb"]));
    // A missing index counts as absent.
    let (ok2, missing2) = missing_plugins(&bases, Lang::En, &vec![true]);
    assert!(!ok2);
    assert_eq!(missing2, strings(&["FGL_Trade_EN.rb", "FGL_Net_EN.rb"]));
    let (ok3, missing3) = missing_plugins(&bases, Lang::En, &vec![true, true, true]);
    assert!(ok3);
    assert!(missing3.is_empty());
}

#[test]
fn validate_accepts_matching_game() {
    assert_eq!(
        validate_entry(&entry(), "  Pokemon Infinite Fusion ", 1000, &all_present()),
        Ok(())
    );
}

#[test]
fn validate_wrong_title() {
    assert_eq!(
        validate_entry(&entry(), " Other Game ", 1000, &all_present()),
        Err("Titre incorrect (obtenu \"Other Game\", requis \"Pokemon Infinite Fusion\")"
            .to_string())
    );
}

#[test]
fn validate_exe_too_small_and_too_large() {
    assert_eq!(
        validate_entry(&entry(), "Pokemon Infinite Fusion", 99, &all_present()),
        Err("Game.exe trop petit (99 < min 100)".to_string())
    );
    assert_eq!(
        validate_entry(&entry(), "Pokemon Infinite Fusion", 5001, &all_present()),
        Err("Game.exe trop grand (5001 > max 5000)".to_string())
    );
    let mut unbounded = entry();
    unbounded.exe_size_max = 0;
    assert_eq!(
        validate_entry(&unbounded, "Pokemon Infinite Fusion", 9_000_000, &all_present()),
        Ok(())
    );
}

#[test]
fn validate_missing_dir_file_and_group() {
    let mut p = all_present();
    p.dirs_present = vec![true, false];
    assert_eq!(
        validate_entry(&entry(), "Pokemon Infinite Fusion", 1000, &p),
        Err("Dossier manquant: Graphics".to_string())
    );
    let mut p2 = all_present();
    p2.files_present = vec![true];
    assert_eq!(
        validate_entry(&entry(), "Pokemon Infinite Fusion", 1000, &p2),
        Err("Fichier manquant: Game.ini".to_string())
    );
    let mut p3 = all_present();
    p3.any_present = vec![vec![false, false]];
    assert_eq!(
        validate_entry(&entry(), "Pokemon Infinite Fusion", 1000, &p3),
        Err("Fichier manquant (un de): [\"Data/Scripts.rxdata\", \"Game.rgssad\"]".to_string())
    );
    // An empty group never fails.
    let mut e = entry();
    e.required_any_files = vec![Vec::new()];
    let mut p4 = all_present();
    p4.any_present = Vec::new();
    assert_eq!(validate_entry(&e, "Pokemon Infinite Fusion", 1000, &p4), Ok(()));
}

#[test]
fn registry_lookup() {
    let reg = registry();
    assert_eq!(match_registry(&reg, " Pokemon Infinite Fusion  "), Some(0));
    assert_eq!(match_registry(&reg, "Pokemon Essentials"), None);
    assert_eq!(entry_by_id(&reg, "infinite_fusion"), Some(0));
    assert_eq!(entry_by_id(&reg, "other"), None);
}

#[test]
fn title_text_default() {
    assert_eq!(title_text(&detected(true, Some("T"), 1)), "T");
    assert_eq!(title_text(&detected(true, None, 1)), "");
}

fn probe(plugins: Vec<bool>) -> AllowProbe {
    AllowProbe { entry: all_present(), plugins_present: plugins }
}

#[test]
fn allow_invalid_game() {
    let r: FangameAllowResult =
        allow_result(&detected(false, None, 0), &registry(), Lang::Fr, &probe(Vec::new()));
    assert!(!r.allowed);
    assert_eq!(r.reason, "Fangame invalide: Game.exe introuvable");
    assert_eq!(r.fangame_id, None);
    assert!(!r.plugins_ok);
}

#[test]
fn allow_unknown_title() {
    let r = allow_result(
        &detected(true, Some("Pokemon Essentials"), 1000),
        &registry(),
        Lang::Fr,
        &probe(Vec::new()),
    );
    assert!(!r.allowed);
    assert_eq!(
        r.reason,
        "Fangame non autorise (titre \"Pokemon Essentials\"). Seul infinitefusion est supporte."
    );
    assert_eq!(r.title, Some("Pokemon Essentials".to_string()));
    assert_eq!(r.exe_size, 1000);
}

#[test]
fn allow_failed_requirement() {
    let r = allow_result(
        &detected(true, Some("Pokemon Infinite Fusion"), 50),
        &registry(),
        Lang::Fr,
        &probe(vec![true, true, true]),
    );
    assert!(!r.allowed);
    assert_eq!(r.fangame_id, Some("infinite_fusion".to_string()));
    assert_eq!(r.display_name, Some("Pokemon Infinite Fusion".to_string()));
    assert_eq!(r.reason, "Game.exe trop petit (50 < min 100)");
    assert!(!r.plugins_ok);
}

#[test]
fn allow_ok_with_and_without_plugins() {
    let r = allow_result(
        &detected(true, Some("Pokemon Infinite Fusion"), 1000),
        &registry(),
        Lang::Fr,
        &probe(vec![true, true, true]),
    );
    assert!(r.allowed);
    assert!(r.plugins_ok);
    assert_eq!(r.reason, "OK");
    assert!(r.plugins_missing.is_empty());

    let r2 = allow_result(
        &detected(true, Some("Pokemon Infinite Fusion"), 1000),
        &registry(),
        Lang::En,
        &probe(vec![false, true, false]),
    );
    assert!(r2.allowed);
    assert!(!r2.plugins_ok);
    assert_eq!(r2.plugins_missing, strings(&["FGL_Battle_EN.rb", "FGL_Net_EN.rb"]));
    assert_eq!(
        r2.reason,
        "OK fangame, plugins manquants: [\"FGL_Battle_EN.rb\", \"FGL_Net_EN.rb\"]"
    );
}

#[test]
fn install_id_default() {
    let r = allow_result(
        &detected(true, Some("Pokemon Infinite Fusion"), 1000),
        &registry(),
        Lang::Fr,
        &probe(vec![true, true, true]),
    );
    assert_eq!(install_entry_id(&r), "infinite_fusion");
    let refused = allow_result(&detected(false, None, 0), &registry(), Lang::Fr, &probe(Vec::new()));
    assert_eq!(install_entry_id(&refused), "infinite_fusion");
}

#[test]
fn install_plan_standard_plugins() {
    let plan = install_plan(&entry(), Lang::En);
    assert!(plan.failure.is_none());
    assert_eq!(plan.steps.len(), 3);
    assert_eq!(plan.steps[0].remove, "FGL_Battle_FR.rb");
    assert_eq!(plan.steps[0].plugin, EmbeddedPlugin::BattleEn);
    assert_eq!(plan.steps[0].write, "FGL_Battle_EN.rb");
    assert_eq!(plan.steps[2].plugin, EmbeddedPlugin::NetEn);
    assert_eq!(plan.steps[2].write, "FGL_Net_EN.rb");
}

#[test]
fn install_plan_stops_at_unknown_plugin() {
    let mut e = entry();
    e.plugins = strings(&["FGL_Trade", "FGL_Chat", "FGL_Net"]);
    let plan = install_plan(&e, Lang::Fr);
    assert_eq!(plan.steps.len(), 1);
    assert_eq!(plan.steps[0].plugin, EmbeddedPlugin::TradeFr);
    assert_eq!(
        plan.failure,
        Some(("FGL_Chat_EN.rb".to_string(), "plugin inconnu: FGL_Chat_FR".to_string()))
    );
}

#[test]
fn join_and_messages() {
    assert_eq!(join_strings(&Vec::new(), ", "), "");
    assert_eq!(join_strings(&strings(&["a"]), ", "), "a");
    assert_eq!(join_strings(&strings(&["a", "b", "c"]), ", "), "a, b, c");
    assert_eq!(
        install_message(Lang::Fr, "/g/Data/Scripts/052_AddOns", &strings(&["FGL_Net_FR.rb", "FGL_Battle.mp3"])),
        "Install OK (FR) -> /g/Data/Scripts/052_AddOns | FGL_Net_FR.rb, FGL_Battle.mp3"
    );
    assert_eq!(
        install_incomplete_message(&strings(&["FGL_Net_FR.rb"])),
        "install incomplete: [\"FGL_Net_FR.rb\"]"
    );
}
