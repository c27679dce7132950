use lib::launch::installed_content_root;
use lib::manifest::{manifest_array_strings, manifest_dependency_id};
use lib::paths::library_file_name;
use lib::reel::score_reels;
use std::path::Path;

fn reels(values: [&str; 3]) -> [String; 3] {
    values.map(ToOwned::to_owned)
}

#[test]
fn scores_reel_matches() {
    assert_eq!(score_reels(&reels(["VAPOR", "VAPOR", "VAPOR"])).points, 30);
    assert_eq!(score_reels(&reels(["VAPOR", "CAST", "VAPOR"])).points, 8);
    assert_eq!(score_reels(&reels(["VAPOR", "CAST", "PACK"])).points, 1);
}

#[test]
fn reads_deployed_packagepack_game_dependency() {
    let source = r#"
[[packagepack.dependencies]]
id = "ghf-studios/vapor-examples/terminal-engine"
relationship = "engine"

[[packagepack.dependencies]]
id = "ghf-studios/vapor-examples/hello-world-on-steroids-game"
relationship = "game"
"#;

    assert_eq!(
        manifest_dependency_id(source, "packagepack", "game").as_deref(),
        Some("ghf-studios/vapor-examples/hello-world-on-steroids-game")
    );
}

#[test]
fn reads_game_library_from_deployed_manifest() {
    let source = r#"
[game]
libraries = ["hello-world-on-steroids-game"]
"#;

    assert_eq!(
        manifest_array_strings(source, "game", "libraries").unwrap(),
        vec!["hello-world-on-steroids-game"]
    );
}

#[test]
fn resolves_installed_content_root_from_packagepack_path() {
    let root = installed_content_root(
        "/app/content/installed/ghf-studios/vapor-examples/hello-world-on-steroids-packagepack",
        "ghf-studios/vapor-examples/hello-world-on-steroids-packagepack",
    )
    .unwrap();

    assert_eq!(Path::new(&root), Path::new("/app/content/installed"));
}

#[test]
fn resolves_linux_library_name() {
    assert_eq!(
        library_file_name("hello-world-on-steroids-game", "x86_64-unknown-linux-gnu"),
        "libhello_world_on_steroids_game.so"
    );
}
