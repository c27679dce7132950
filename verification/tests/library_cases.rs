use lib::game::game;
use lib::launch::{
    inspect_game_manifest, installed_content_root, locate_game, LaunchContext, LaunchError,
};
use lib::manifest::{
    manifest_array_strings, manifest_dependency_id, manifest_raw_value, manifest_value,
    table_name, unquote,
};
use lib::paths::{id_path, library_file_name, library_file_name_for, short_id};
use lib::reel::{parse_command, score_reels, Command, GameSession, Lcg, Response, SpinResult};
use lib::text::{chars_of, split_chars, trim_chars};

fn reels(values: [&str; 3]) -> [String; 3] {
    values.map(ToOwned::to_owned)
}

fn small_game(charge: i32) -> lib::reel::TerminalReelGame {
    let mut g = game();
    g.starting_charge = charge;
    g
}

#[test]
fn trims_unicode_whitespace() {
    let t = trim_chars(&chars_of("\u{3000} \t key \u{a0}\r\n"));
    assert_eq!(t, vec!['k', 'e', 'y']);
    assert!(trim_chars(&chars_of(" \n ")).is_empty());
}

#[test]
fn splits_into_one_more_piece_than_separators() {
    let pieces = split_chars(&chars_of("a,,b,"), ',');
    assert_eq!(pieces, vec![vec!['a'], vec![], vec!['b'], vec![]]);
    assert_eq!(split_chars(&chars_of(""), ','), vec![Vec::<char>::new()]);
}

#[test]
fn table_names_and_quotes() {
    assert_eq!(table_name("[ game ]").as_deref(), Some("game"));
    assert_eq!(table_name("[[game.dependencies]]").as_deref(), Some("game.dependencies"));
    assert_eq!(table_name("[[x]").as_deref(), Some("[x"));
    assert_eq!(table_name("game"), None);
    assert_eq!(unquote("\"hello\"").as_deref(), Some("hello"));
    assert_eq!(unquote("\""), None);
    assert_eq!(unquote("hello"), None);
}

const GAME_MANIFEST: &str = r#"
title = "outside any table"

[game]
name = "Hello"
libraries = ["first-lib", , "second-lib",]
count = 3

[game.steam]
title = "Hello World on Steroids"

[[game.dependencies]]
relationship = "engine"
id = "studio/examples/terminal-engine"
"#;

#[test]
fn values_come_from_their_own_table() {
    assert_eq!(manifest_value(GAME_MANIFEST, "game", "name").as_deref(), Some("Hello"));
    assert_eq!(
        manifest_value(GAME_MANIFEST, "game.steam", "title").as_deref(),
        Some("Hello World on Steroids")
    );
    assert_eq!(manifest_value(GAME_MANIFEST, "game", "title"), None);
    assert_eq!(manifest_raw_value(GAME_MANIFEST, "game", "count").as_deref(), Some("3"));
    assert_eq!(manifest_value(GAME_MANIFEST, "game", "count"), None);
    assert_eq!(manifest_value(GAME_MANIFEST, "missing", "name"), None);
}

#[test]
fn array_skips_blank_items() {
    assert_eq!(
        manifest_array_strings(GAME_MANIFEST, "game", "libraries").unwrap(),
        vec!["first-lib", "second-lib"]
    );
    assert_eq!(manifest_array_strings("[t]\nk = [a]\n", "t", "k"), None);
    assert_eq!(manifest_array_strings("[t]\nk = \"a\"\n", "t", "k"), None);
    assert_eq!(manifest_array_strings("[t]\nk = []\n", "t", "k").unwrap(), Vec::<String>::new());
}

#[test]
fn dependency_ids() {
    assert_eq!(
        manifest_dependency_id(GAME_MANIFEST, "game", "engine").as_deref(),
        Some("studio/examples/terminal-engine")
    );
    assert_eq!(manifest_dependency_id(GAME_MANIFEST, "game", "game"), None);
    let unquoted_id = "[[p.dependencies]]\nid = x\nrelationship = \"game\"\n";
    assert_eq!(manifest_dependency_id(unquoted_id, "p", "game"), None);
    let first_wins = "[[p.dependencies]]\nid = \"a\"\nrelationship = \"game\"\n\
                      [[p.dependencies]]\nid = \"b\"\nrelationship = \"game\"\n";
    assert_eq!(manifest_dependency_id(first_wins, "p", "game").as_deref(), Some("a"));
}

#[test]
fn id_paths_drop_empty_parts() {
    assert_eq!(id_path("a//b/"), "a/b");
    assert_eq!(id_path("/"), "");
    assert_eq!(id_path(&id_path("//x///y/z")), id_path("//x///y/z"));
    assert_eq!(short_id("a/b/c"), "c");
    assert_eq!(short_id("abc"), "abc");
    assert_eq!(short_id("a/"), "");
}

#[test]
fn library_names_per_platform() {
    assert_eq!(library_file_name("my-game", "aarch64-apple-darwin"), "libmy-game.dylib");
    assert_eq!(library_file_name("my-game", "x86_64-pc-windows-msvc"), "my-game.dll");
    assert_eq!(library_file_name("my-game", "x86_64-unknown-linux-gnu"), "libmy_game.so");
    assert_eq!(library_file_name("custom.so", "x86_64-pc-windows-msvc"), "custom.so");
}

#[test]
fn content_root_steps() {
    assert_eq!(installed_content_root("/a/b", "").unwrap(), "/a/b");
    assert_eq!(installed_content_root("/a/b", "//x//").unwrap(), "/a");
    match installed_content_root("/a", "x/y") {
        Err(e) => assert_eq!(
            e.message(),
            "cannot resolve installed content root from packagepack root '/a'"
        ),
        Ok(_) => panic!("expected an error"),
    }
}

const PACKAGEPACK_MANIFEST: &str = r#"
[[packagepack.dependencies]]
id = "studio/examples/terminal-engine"
relationship = "engine"

[[packagepack.dependencies]]
id = "studio/examples/hello-game"
relationship = "game"
"#;

#[test]
fn locates_the_packagepack_game() {
    let loc = locate_game(
        "/content/installed/studio/examples/hello-pack",
        "studio/examples/hello-pack",
        PACKAGEPACK_MANIFEST,
    )
    .unwrap();
    assert_eq!(loc.game_id, "studio/examples/hello-game");
    assert_eq!(loc.game_root, "/content/installed/studio/examples/hello-game");

    let fallback = "[packagepack.game]\nid = \"s/g\"\n";
    let loc = locate_game("/c/s/p", "s/p", fallback).unwrap();
    assert_eq!(loc.game_id, "s/g");
    assert_eq!(loc.game_root, "/c/s/g");

    match locate_game("/c/s/p", "s/p", "[packagepack]\n") {
        Err(e) => {
            assert!(matches!(e, LaunchError::NoGameDependency { .. }));
            assert_eq!(
                e.message(),
                "packagepack manifest has no game dependency: /c/s/p/Packagepack.vapor.toml"
            );
        }
        Ok(_) => panic!("expected an error"),
    }
}

#[test]
fn inspects_the_game_manifest() {
    let d = inspect_game_manifest(
        "studio/examples/hello-game",
        "/g",
        "studio/examples/terminal-engine",
        GAME_MANIFEST,
    )
    .unwrap();
    assert_eq!(d.game_title, "Hello World on Steroids");
    assert_eq!(d.game_library_name, "first-lib");

    let plain = "[game.engine]\nid = \"e\"\n[game]\nlibraries = [\"l\"]\n";
    let d = inspect_game_manifest("s/c/short", "/g", "e", plain).unwrap();
    assert_eq!(d.game_title, "short");

    match inspect_game_manifest("s/g", "/g", "other", plain) {
        Err(e) => assert_eq!(
            e.message(),
            "game 's/g' requires engine 'e', but packagepack selected 'other'"
        ),
        Ok(_) => panic!("expected an error"),
    }
    match inspect_game_manifest("s/g", "/g", "e", "[game]\n") {
        Err(e) => assert_eq!(
            e.message(),
            "game manifest has no engine dependency: /g/Game.vapor.toml"
        ),
        Ok(_) => panic!("expected an error"),
    }
    match inspect_game_manifest("s/g", "/g", "e", "[game.engine]\nid = \"e\"\n[game]\nlibraries = []\n") {
        Err(e) => assert_eq!(
            e.message(),
            "game manifest declares no runtime library: /g/Game.vapor.toml"
        ),
        Ok(_) => panic!("expected an error"),
    }
}

#[test]
fn remaining_error_messages() {
    let e = LaunchError::GameNotInstalled { game_id: "s/g".to_owned(), expected: "/c/s/g".to_owned() };
    assert_eq!(e.message(), "packagepack game is not installed: s/g\n  expected: /c/s/g");
    let e = LaunchError::MissingGameLibrary { path: "/g/lib/x/libg.so".to_owned() };
    assert_eq!(
        e.message(),
        "installed game library is missing: /g/lib/x/libg.so\nhelp: declare and deploy the game library from the game artifact"
    );
}

#[test]
fn game_library_path_under_target_dir() {
    let ctx = LaunchContext {
        target: "t".to_owned(),
        packagepack_id: "s/p".to_owned(),
        packagepack_root: "/c/s/p".to_owned(),
        engine_id: "e".to_owned(),
        engine_root: "/c/e".to_owned(),
        runtime_target: "x86_64-unknown-linux-gnu".to_owned(),
        game_id: "s/g".to_owned(),
        game_root: "/c/s/g".to_owned(),
        game_title: "G".to_owned(),
        game_library_name: "hello-game".to_owned(),
    };
    assert_eq!(ctx.game_library_path(), "/c/s/g/lib/x86_64-unknown-linux-gnu/libhello_game.so");
}

#[test]
fn generator_sequence() {
    let mut rng = Lcg::new(0);
    assert_eq!(rng.state, 1);
    assert_eq!(Lcg::new(6).state, 7);
    assert_eq!(rng.next_index(6), 4);
    assert_eq!(rng.state, 7806831264735756412);
    assert_eq!(rng.next_index(6), 1);
    assert_eq!(rng.next_index(1), 0);
}

#[test]
fn outcome_labels_and_order() {
    let full = score_reels(&reels(["A", "A", "A"]));
    assert_eq!((full.label, full.points, full.charge), ("full signal lock", 30, 4));
    let partial = score_reels(&reels(["A", "B", "B"]));
    assert_eq!((partial.label, partial.points, partial.charge), ("partial signal lock", 8, 1));
    let drift = score_reels(&reels(["A", "B", "C"]));
    assert_eq!((drift.label, drift.points, drift.charge), ("signal drift", 1, 0));
    assert_eq!(score_reels(&reels(["B", "A", "B"])).points, score_reels(&reels(["A", "B", "B"])).points);
}

#[test]
fn example_game_definition() {
    let g = game();
    assert_eq!(g.title, "Hello World on Steroids");
    assert_eq!(g.subtitle, "A tiny terminal game loaded from a Vapor game artifact.");
    assert_eq!(g.prompt, "hello-world");
    assert_eq!(g.starting_charge, 12);
    assert_eq!(g.symbols, vec!["VAPOR", "CAST", "PACK", "MOD", "RIFT", "LOOP"]);
}

#[test]
fn session_refuses_games_without_symbols() {
    let mut g = game();
    g.symbols.clear();
    match GameSession::open(g, 0) {
        Err(m) => assert_eq!(m, "terminal reel game requires at least one symbol"),
        Ok(_) => panic!("expected an error"),
    }
}

#[test]
fn spins_score_and_reset() {
    let mut s = GameSession::open(game(), 0).unwrap();
    assert!(s.next_spin_fits());
    match s.spin() {
        SpinResult::Spun(rep) => {
            assert_eq!(rep.reels, reels(["RIFT", "CAST", "CAST"]));
            assert_eq!(rep.outcome.points, 8);
            assert_eq!((rep.spin_count, rep.score, rep.charge), (1, 8, 12));
        }
        SpinResult::ChargeEmpty => panic!("charge was left"),
    }
    match s.spin() {
        SpinResult::Spun(rep) => {
            assert_eq!(rep.reels, reels(["CAST", "VAPOR", "RIFT"]));
            assert_eq!((rep.spin_count, rep.score, rep.charge), (2, 9, 11));
        }
        SpinResult::ChargeEmpty => panic!("charge was left"),
    }
    s.reset();
    assert_eq!((s.spin_count(), s.score(), s.charge()), (0, 0, 12));
}

#[test]
fn empty_charge_changes_nothing() {
    let mut s = GameSession::open(small_game(0), 3).unwrap();
    assert!(matches!(s.spin(), SpinResult::ChargeEmpty));
    assert_eq!((s.spin_count(), s.score(), s.charge()), (0, 0, 0));
}

#[test]
fn parses_commands() {
    assert!(matches!(parse_command("  SPIN \n"), Command::Spin));
    assert!(matches!(parse_command("\n"), Command::Spin));
    assert!(matches!(parse_command("s"), Command::Spin));
    assert!(matches!(parse_command(" Help "), Command::Help));
    assert!(matches!(parse_command("?"), Command::Help));
    assert!(matches!(parse_command("STATUS"), Command::Status));
    assert!(matches!(parse_command("reset"), Command::Reset));
    assert!(matches!(parse_command("Exit"), Command::Quit));
    assert!(matches!(parse_command("q"), Command::Quit));
    match parse_command("  Dance ") {
        Command::Unknown(w) => assert_eq!(w, "dance"),
        _ => panic!("expected an unknown command"),
    }
}

#[test]
fn handles_commands() {
    let mut s = GameSession::open(small_game(1), 0).unwrap();
    assert!(matches!(s.handle(Command::Help), Response::Help));
    assert!(matches!(s.handle(Command::Spin), Response::Spun(_)));
    match s.handle(Command::Status) {
        Response::Status { spins, score, charge } => assert_eq!((spins, score, charge), (1, 8, 1)),
        _ => panic!("expected the status"),
    }
    assert!(matches!(s.handle(Command::Reset), Response::ResetDone));
    assert_eq!((s.spin_count(), s.score(), s.charge()), (0, 0, 1));
    assert!(matches!(s.handle(Command::Quit), Response::Closed));
    match s.handle(Command::Unknown("x".to_owned())) {
        Response::Unknown(w) => assert_eq!(w, "x"),
        _ => panic!("expected the word back"),
    }
}

#[test]
fn content_root_same_for_id_and_its_path() {
    let root = "/c/a/b/c";
    let id = "/a//b/";
    assert_eq!(
        installed_content_root(root, &id_path(id)).unwrap(),
        installed_content_root(root, id).unwrap()
    );
}

#[test]
fn trimming_twice_is_trimming_once() {
    let once = trim_chars(&chars_of("\t x y \u{2028}"));
    assert_eq!(trim_chars(&once), once);
    assert_eq!(once, vec!['x', ' ', 'y']);
}

#[test]
fn first_entry_wins() {
    let source = "[t]\nk = \"a\"\nk = \"b\"\n[t]\nk = \"c\"\n";
    assert_eq!(manifest_value(source, "t", "k").as_deref(), Some("a"));
}

#[test]
fn library_name_given_extension_flag() {
    assert_eq!(library_file_name_for("a.b-c", "x86_64-unknown-linux-gnu", false), "liba.b_c.so");
    assert_eq!(library_file_name_for("a.b-c", "x86_64-unknown-linux-gnu", true), "a.b-c");
    assert_eq!(library_file_name_for("x", "aarch64-apple-ios", false), "libx.dylib");
}

#[test]
fn array_round_trip() {
    let items = vec!["first lib", "", " spaced ", "with\"quote", "[br]"];
    let body = items.iter().map(|i| format!("\"{i}\"")).collect::<Vec<_>>().join(", ");
    let source = format!("[s]\nk = [{body}]\n");
    assert_eq!(manifest_array_strings(&source, "s", "k").unwrap(), items);
    let empty = "[s]\nk = []\n";
    assert_eq!(manifest_array_strings(empty, "s", "k").unwrap(), Vec::<String>::new());
}
