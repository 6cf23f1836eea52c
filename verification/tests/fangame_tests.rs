use easytier_gui::fangame::{
    cancelled_result, detect_fangame, exe_entry, find_entry_ci, fingerprint_of, from_western,
    ini_title_of, input_is_exe, launch_target, parse_title_from_ini_text, patch_ready_message,
    root_is_parent, says_present, script_run_result, scripts_source, where_output_path,
    FangameDetectResult, FangameScan, FsEntry, InputProbe, ScriptsSource,
};
use easytier_gui::peer_files::{
    command_file_name, command_text, is_temp_peer_file, local_player_id, pick_player_id,
    stem_and_extension, PeerFile,
};

fn file(name: &str, dir: &str) -> FsEntry {
    FsEntry {
        name: Some(name.to_string()),
        display: format!("{}/{}", dir, name),
        is_file: true,
        is_dir: false,
    }
}

fn folder(name: &str, dir: &str) -> FsEntry {
    FsEntry {
        name: Some(name.to_string()),
        display: format!("{}/{}", dir, name),
        is_file: false,
        is_dir: true,
    }
}

fn dir_input(path: &str) -> InputProbe {
    InputProbe {
        exists: true,
        is_file: false,
        file_name: Some("game".to_string()),
        display: path.to_string(),
        parent_display: Some("/g".to_string()),
    }
}

fn scan(input: InputProbe, root: Vec<FsEntry>, data: Vec<FsEntry>) -> FangameScan {
    FangameScan {
        input,
        root_entries: root,
        exe_size: 1234,
        ini_bytes: Some(b"[Game]\r\nTitle=Pokemon Infinite Fusion\r\n".to_vec()),
        data_is_dir: true,
        data_entries: data,
    }
}

fn chars(s: &str) -> Vec<char> {
    s.chars().collect()
}

#[test]
fn title_from_ini_text() {
    assert_eq!(
        parse_title_from_ini_text(&chars("[Game]\nLibrary=x\n  TITLE= My Game \n")),
        Some(chars("My Game"))
    );
    assert_eq!(parse_title_from_ini_text(&chars("Title = Spaced\n")), None);
    assert_eq!(parse_title_from_ini_text(&chars("\u{feff}Title=A\u{fffd}B")), Some(chars("AB")));
    assert_eq!(parse_title_from_ini_text(&chars("Title=\u{fffd}\nTitle=Second")), Some(chars("Second")));
    assert_eq!(parse_title_from_ini_text(&chars("Title=   \n")), None);
    assert_eq!(parse_title_from_ini_text(&chars("Name=x")), None);
    assert_eq!(parse_title_from_ini_text(&chars("")), None);
}

#[test]
fn ini_title_encodings() {
    assert_eq!(ini_title_of(b""), None);
    assert_eq!(ini_title_of(b"Title=Plain\n"), Some("Plain".to_string()));
    // UTF-16 little-endian with its mark
    let mut le = vec![0xFF, 0xFE];
    for u in "Title=Fusion\r\n".encode_utf16() {
        le.extend_from_slice(&u.to_le_bytes());
    }
    assert_eq!(ini_title_of(&le), Some("Fusion".to_string()));
    // UTF-16 big-endian with its mark
    let mut be = vec![0xFE, 0xFF];
    for u in "Title=Grand".encode_utf16() {
        be.extend_from_slice(&u.to_be_bytes());
    }
    assert_eq!(ini_title_of(&be), Some("Grand".to_string()));
    // UTF-16 little-endian without a mark, found by its zero bytes
    let mut nomark = Vec::new();
    for u in "Title=Zero".encode_utf16() {
        nomark.extend_from_slice(&u.to_le_bytes());
    }
    assert_eq!(ini_title_of(&nomark), Some("Zero".to_string()));
    // Latin-1 when the bytes are not UTF-8
    assert_eq!(ini_title_of(b"Title=Pok\xe9mon"), Some("Pok\u{e9}mon".to_string()));
    assert_eq!(from_western(b"\xe9A"), vec!['\u{e9}', 'A']);
}

#[test]
fn lookup_ignores_case() {
    let entries = vec![folder("game.exe", "/g"), file("GAME.EXE", "/g"), file("Game.exe", "/g")];
    assert_eq!(find_entry_ci(&entries, "Game.exe", false), Some(1));
    assert_eq!(find_entry_ci(&entries, "game.EXE", true), Some(0));
    assert_eq!(find_entry_ci(&entries, "Data", true), None);
    let unnamed = vec![FsEntry { name: None, display: "?".to_string(), is_file: true, is_dir: false }];
    assert_eq!(find_entry_ci(&unnamed, "", false), None);
}

#[test]
fn detect_invalid_path() {
    let s = scan(dir_input("/g/game"), vec![], vec![]);
    let r = detect_fangame("   ", &s);
    assert!(!r.ok);
    assert_eq!(r.mode, "unknown");
    assert_eq!(r.message, "Invalid or missing path.");
    assert_eq!(r.root, "");
    let mut s = scan(dir_input("/g/game"), vec![], vec![]);
    s.input.exists = false;
    assert_eq!(detect_fangame("/g/game", &s).message, "Invalid or missing path.");
}

#[test]
fn detect_scripts_folder() {
    let root = vec![
        file("game.exe", "/g/game"),
        file("Game.ini", "/g/game"),
        folder("data", "/g/game"),
        file("Game.rgssad", "/g/game"),
    ];
    let data = vec![file("scripts.RXDATA", "/g/game/data")];
    let s = scan(dir_input("/g/game"), root, data);
    let r = detect_fangame("/g/game", &s);
    assert!(r.ok);
    assert!(!r.cancelled);
    assert_eq!(r.root, "/g/game");
    assert_eq!(r.game_exe, Some("/g/game/game.exe".to_string()));
    assert_eq!(r.game_exe_size, 1234);
    assert_eq!(r.game_title, Some("Pokemon Infinite Fusion".to_string()));
    assert!(r.has_data_dir);
    assert_eq!(r.data_dir, Some("/g/game/data".to_string()));
    assert_eq!(r.scripts_rxdata, Some("/g/game/data/scripts.RXDATA".to_string()));
    assert_eq!(r.game_rgssad, Some("/g/game/Game.rgssad".to_string()));
    assert_eq!(r.mode, "scripts_rxdata");
    assert_eq!(r.message, "Data/Scripts.rxdata found.");
}

#[test]
fn detect_archive_and_missing() {
    let s = scan(dir_input("/g/game"), vec![file("Game.rgssad", "/g/game")], vec![]);
    let r = detect_fangame("/g/game", &s);
    assert!(r.ok);
    assert_eq!(r.mode, "rgssad");
    assert_eq!(r.message, "Game.rgssad found (no Data folder).");
    assert_eq!(r.game_exe, None);
    assert_eq!(r.game_exe_size, 0);
    assert_eq!(r.game_title, None);
    let s = scan(dir_input("/g/game"), vec![folder("Data", "/g/game")], vec![]);
    let r = detect_fangame("/g/game", &s);
    assert!(!r.ok);
    assert_eq!(r.message, "Data folder exists but Scripts.rxdata not found.");
    let s = scan(dir_input("/g/game"), vec![], vec![]);
    assert_eq!(
        detect_fangame("/g/game", &s).message,
        "Neither Data/Scripts.rxdata nor Game.rgssad found."
    );
}

#[test]
fn detect_from_executable() {
    let input = InputProbe {
        exists: true,
        is_file: true,
        file_name: Some("Launcher.EXE".to_string()),
        display: "/g/game/Launcher.EXE".to_string(),
        parent_display: Some("/g/game".to_string()),
    };
    assert!(root_is_parent(&input));
    assert!(input_is_exe(&input));
    assert_eq!(exe_entry(&input, &vec![file("Game.exe", "/g/game")]), None);
    let s = scan(input, vec![file("Game.exe", "/g/game"), file("Game.rgssad", "/g/game")], vec![]);
    let r = detect_fangame("/g/game/Launcher.EXE", &s);
    assert_eq!(r.root, "/g/game");
    assert_eq!(r.game_exe, Some("/g/game/Launcher.EXE".to_string()));
    let input = InputProbe {
        exists: true,
        is_file: true,
        file_name: Some("readme.txt".to_string()),
        display: "/g/game/readme.txt".to_string(),
        parent_display: None,
    };
    assert!(!root_is_parent(&input));
    assert!(!input_is_exe(&input));
    let s = scan(input, vec![], vec![]);
    let r = detect_fangame("/g/game/readme.txt", &s);
    assert_eq!(r.root, "/g/game/readme.txt");
    assert_eq!(r.game_exe, None);
}

#[test]
fn cancelled_dialog() {
    let r = cancelled_result();
    assert!(r.cancelled);
    assert!(!r.ok);
    assert_eq!(r.message, "Cancelled.");
}

fn detected(ok: bool, title: Option<&str>, size: u64) -> FangameDetectResult {
    FangameDetectResult {
        root: "/g".to_string(),
        game_exe: Some("/g/Game.exe".to_string()),
        game_exe_size: size,
        game_title: title.map(|t| t.to_string()),
        has_data_dir: true,
        data_dir: None,
        scripts_rxdata: None,
        game_rgssad: Some("/g/Game.rgssad".to_string()),
        mode: "rgssad".to_string(),
        ok,
        message: "msg".to_string(),
        cancelled: false,
    }
}

#[test]
fn fingerprint_rules() {
    assert!(matches!(fingerprint_of(&detected(false, None, 5)), Err(e) if e == "msg"));
    assert!(matches!(fingerprint_of(&detected(true, None, 0)), Err(e) if e == "Game.exe size is 0"));
    match fingerprint_of(&detected(true, None, 5)) {
        Ok(f) => {
            assert_eq!(f.title, "UNKNOWN");
            assert_eq!(f.exe_size, 5);
        }
        Err(_) => panic!("expected a fingerprint"),
    }
    match fingerprint_of(&detected(true, Some("T"), 5)) {
        Ok(f) => assert_eq!(f.title, "T"),
        Err(_) => panic!("expected a fingerprint"),
    }
}

#[test]
fn launch_and_scripts_source() {
    let d = detected(true, None, 5);
    assert_eq!(launch_target(&d), Ok(("/g/Game.exe".to_string(), "/g".to_string())));
    let mut n = detected(true, None, 5);
    n.game_exe = None;
    assert_eq!(launch_target(&n), Err("Game.exe not found".to_string()));
    match scripts_source(&d) {
        Ok(ScriptsSource::Extract { rgssad, root }) => {
            assert_eq!(rgssad, "/g/Game.rgssad");
            assert_eq!(root, "/g");
        }
        _ => panic!("expected an extraction"),
    }
    let mut s = detected(true, None, 5);
    s.scripts_rxdata = Some("/g/Data/Scripts.rxdata".to_string());
    assert!(matches!(scripts_source(&s), Ok(ScriptsSource::Existing(p)) if p == "/g/Data/Scripts.rxdata"));
    n.game_rgssad = None;
    assert!(matches!(scripts_source(&n), Err(e) if e == "No Scripts.rxdata and no Game.rgssad"));
}

#[test]
fn script_outputs() {
    assert!(says_present("plugin PRESENT\n"));
    assert!(!says_present("present"));
    assert_eq!(patch_ready_message("/s", None), "READY scripts=/s plugin=already");
    assert_eq!(patch_ready_message("/s", Some("INJECTED")), "READY scripts=/s plugin=INJECTED");
    assert_eq!(script_run_result(true, b"  ok \n", b"warn"), Ok("ok".to_string()));
    assert_eq!(script_run_result(false, b" out ", b" boom\n"), Err("ruby: boom out".to_string()));
    assert_eq!(script_run_result(true, b"a\xffb", b""), Ok("a\u{fffd}b".to_string()));
    assert_eq!(where_output_path(b""), None);
    assert_eq!(
        where_output_path(b"C:\\Ruby\\bin\\ruby.exe \r\nC:\\Other\\ruby.exe\r\n"),
        Some("C:\\Ruby\\bin\\ruby.exe".to_string())
    );
}

#[test]
fn stems_and_extensions() {
    let cases: [(&str, &str, Option<&str>); 6] = [
        ("bob.txt", "bob", Some("txt")),
        ("a.b.txt", "a.b", Some("txt")),
        ("noext", "noext", None),
        (".hidden", ".hidden", None),
        ("trail.", "trail", Some("")),
        ("..", "..", None),
    ];
    for (name, stem, ext) in cases {
        let (s, e) = stem_and_extension(&chars(name));
        assert_eq!(s, chars(stem));
        assert_eq!(e, ext.map(chars));
    }
}

fn peer(name: &str, t: Option<u128>) -> PeerFile {
    PeerFile { name: Some(name.to_string()), modified_nanos: t }
}

#[test]
fn player_file_chosen_by_time() {
    let files = vec![
        peer("Alice.txt", Some(10)),
        peer("Bob.txt", Some(30)),
        peer("cmd_Bob.txt", Some(99)),
        peer("PartyReady_x.txt", Some(99)),
        peer("Carol.dat", Some(99)),
        peer("Dan.txt", None),
        peer("Eve.txt", Some(30)),
        PeerFile { name: None, modified_nanos: Some(99) },
        peer(".txt", Some(99)),
    ];
    assert_eq!(pick_player_id(&files), Some("Bob".to_string()));
    assert_eq!(local_player_id(&files), Ok("Bob".to_string()));
    assert_eq!(pick_player_id(&vec![peer("Zed.txt", Some(0))]), None);
    assert_eq!(
        local_player_id(&vec![]),
        Err("no local player id in FGL_peers (lance le jeu d abord)".to_string())
    );
    assert_eq!(command_file_name("Bob"), "cmd_Bob.txt");
    assert_eq!(command_text("  go north \n"), "go north");
}

#[test]
fn temporary_files() {
    for n in ["chal_1.txt", "CHALRESP.txt", "trd_a", "bat_x", "party_1", "partyready_2", "cmd_bob.txt"] {
        assert!(is_temp_peer_file(n), "{}", n);
    }
    for n in ["bob.txt", "partyready", "party", "", "challenger"] {
        let expected = n.starts_with("chal");
        assert_eq!(is_temp_peer_file(n), expected, "{}", n);
    }
}
