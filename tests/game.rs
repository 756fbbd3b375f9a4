use gamedir::{Game, Platform};

fn paths(items: &[&str]) -> Vec<String> {
    items.iter().map(|s| s.to_string()).collect()
}

#[test]
fn test_is_uninstall() {
    assert!(Game::is_uninstall("game/uninstall-game.sh"))
}

#[test]
fn test_is_native() {
    assert!(Game::is_native("game/run.sh"))
}

#[test]
fn test_is_wine() {
    assert!(Game::is_wine("win_game/launcher.exe"))
}

#[test]
fn test_extension_in() {
    assert!(Game::extension_in("/home/file.png", &["jpg", "png"]))
}

#[test]
fn test_basename() {
    assert_eq!(
        Some("file.png".to_string()),
        Game::basename("/home/file.png")
    )
}

#[test]
fn uninstall_match_is_case_sensitive() {
    assert!(!Game::is_uninstall("Uninstall.exe"));
    assert!(Game::is_uninstall("game/tools-uninstall"));
    assert!(Game::is_uninstall("uninstall"));
    assert!(!Game::is_uninstall("game/run.sh"));
}

#[test]
fn uninstall_looks_at_the_file_name_only() {
    assert!(!Game::is_uninstall("uninstall/run.sh"));
}

#[test]
fn platform_by_extension() {
    assert_eq!(Game::platform("run.sh"), Some(Platform::Native));
    assert_eq!(Game::platform("game.x86"), Some(Platform::Native));
    assert_eq!(Game::platform("game.x86_64"), Some(Platform::Native));
    assert_eq!(Game::platform("launcher.exe"), Some(Platform::Wine));
    assert_eq!(Game::platform("readme.txt"), None);
    assert_eq!(Game::platform("run.SH"), None);
    assert_eq!(Game::platform("game"), None);
}

#[test]
fn extension_in_needs_an_extension() {
    assert!(!Game::extension_in("/home/file", &["png"]));
    assert!(!Game::extension_in("/home/file.png", &[]));
    assert!(!Game::extension_in("/home/.png", &["png"]));
    assert!(!Game::extension_in("/home/file.tar.gz", &["tar"]));
    assert!(Game::extension_in("/home/file.tar.gz", &["gz"]));
    assert!(Game::extension_in("/home/file.png/", &["png"]));
}

#[test]
fn same_platform_cases() {
    assert_eq!(Game::same_platform(&[]), None);
    assert_eq!(
        Game::same_platform(&paths(&["a.exe", "b.exe"])),
        Some(Platform::Wine)
    );
    assert_eq!(Game::same_platform(&paths(&["a.exe", "b.sh"])), None);
    assert_eq!(Game::same_platform(&paths(&["a.noext", "b.exe"])), None);
    assert_eq!(
        Game::same_platform(&paths(&["a.sh", "b.x86_64"])),
        Some(Platform::Native)
    );
}

#[test]
fn basename_edge_cases() {
    assert_eq!(Game::basename("/"), None);
    assert_eq!(Game::basename(""), None);
    assert_eq!(Game::basename("games/.."), None);
    assert_eq!(Game::basename("."), None);
    assert_eq!(Game::basename("games/doom/"), Some("doom".to_string()));
    assert_eq!(Game::basename("games/doom/."), Some("doom".to_string()));
    assert_eq!(Game::basename("doom"), Some("doom".to_string()));
}

#[test]
fn uninstaller_is_left_out() {
    let game = Game::from_path(
        "game".to_string(),
        paths(&["game/uninstall-game.sh", "game/game.x86_64"]),
    );
    assert_eq!(game.launchers, paths(&["game/game.x86_64"]));
    assert_eq!(game.platform, Some(Platform::Native));
    assert_eq!(game.name, Some("game".to_string()));
    assert!(game.genres.is_empty());
    assert_eq!(game.directory, "game".to_string());
}

#[test]
fn mixed_platforms_give_none() {
    let game = Game::from_path("dir".to_string(), paths(&["dir/a.exe", "dir/b.sh"]));
    assert_eq!(game.launchers, paths(&["dir/a.exe", "dir/b.sh"]));
    assert_eq!(game.platform, None);
}

#[test]
fn file_named_as_its_directory_launches() {
    let game = Game::from_path("mygame/".to_string(), paths(&["mygame/mygame"]));
    assert_eq!(game.launchers, paths(&["mygame/mygame"]));
    assert_eq!(game.platform, None);
    assert_eq!(game.name, Some("mygame".to_string()));
}

#[test]
fn other_files_are_not_launchers() {
    let game = Game::from_path(
        "/games/quake".to_string(),
        paths(&["/games/quake/readme.txt", "/games/quake/data", "/games/quake/quake.exe"]),
    );
    assert_eq!(game.launchers, paths(&["/games/quake/quake.exe"]));
    assert_eq!(game.platform, Some(Platform::Wine));
}

#[test]
fn empty_directory() {
    let game = Game::from_path("/".to_string(), Vec::new());
    assert!(game.launchers.is_empty());
    assert_eq!(game.platform, None);
    assert_eq!(game.name, None);
    assert_eq!(game.display_name(), "a game with no name".to_string());
}

#[test]
fn display_name_is_the_name() {
    let game = Game::from_path("/games/doom".to_string(), Vec::new());
    assert_eq!(game.display_name(), "doom".to_string());
}

#[test]
fn same_name_as_parent() {
    assert!(Game::is_launcher("mygame/mygame"));
    assert!(!Game::is_launcher("mygame/other"));
    assert!(!Game::is_launcher("mygame"));
    assert!(!Game::is_launcher("uninstall/uninstall"));
}

#[test]
fn find_launchers_keeps_order() {
    let (platform, launchers) =
        Game::find_launchers(&paths(&["g/b.sh", "g/notes", "g/a.x86"]));
    assert_eq!(launchers, paths(&["g/b.sh", "g/a.x86"]));
    assert_eq!(platform, Some(Platform::Native));
}
