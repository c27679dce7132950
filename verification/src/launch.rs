//! Resolving a launch: from the packagepack that the launcher hands over,
//! through its manifest, to the installed game and its runtime library.
//!
//! The file-system and environment reads happen outside this module; these
//! functions take what was read and decide.
use vstd::prelude::*;
use vstd::string::*;
use crate::manifest::{
    array_of, dependency_of, manifest_array_strings, manifest_dependency_id, manifest_value,
    value_of,
};
use crate::paths::{
    after_last, id_parts, id_path, id_path_of, keep_nonempty, path_join, spec_path_join,
    library_file_name, library_file_name_of, path_parent, short_id, spec_path_parent,
};
use crate::text::{chars_of, split_chars, split_on, string_views, views};

verus! {

/// Why a launch cannot go on.
#[derive(Debug)]
pub enum LaunchError {
    /// The packagepack manifest names no game.
    NoGameDependency { manifest_path: String },
    /// The packagepack root has fewer ancestors than its id has parts.
    UnresolvedContentRoot { packagepack_root: String },
    /// The game's install directory is missing.
    GameNotInstalled { game_id: String, expected: String },
    /// The game manifest names no engine.
    NoEngineDependency { manifest_path: String },
    /// The game wants another engine than the packagepack selected.
    EngineMismatch { game_id: String, required: String, selected: String },
    /// The game manifest names no runtime library.
    NoRuntimeLibrary { manifest_path: String },
    /// The game's runtime library file is missing.
    MissingGameLibrary { path: String },
}

/// The text that reports a launch error.
pub open spec fn message_of(e: LaunchError) -> Seq<char> {
    match e {
        LaunchError::NoGameDependency { manifest_path } => "packagepack manifest has no game dependency: "@
            + manifest_path@,
        LaunchError::UnresolvedContentRoot { packagepack_root } =>
            "cannot resolve installed content root from packagepack root '"@ + packagepack_root@
            + "'"@,
        LaunchError::GameNotInstalled { game_id, expected } => "packagepack game is not installed: "@
            + game_id@ + "\n  expected: "@ + expected@,
        LaunchError::NoEngineDependency { manifest_path } => "game manifest has no engine dependency: "@
            + manifest_path@,
        LaunchError::EngineMismatch { game_id, required, selected } => "game '"@ + game_id@
            + "' requires engine '"@ + required@ + "', but packagepack selected '"@ + selected@
            + "'"@,
        LaunchError::NoRuntimeLibrary { manifest_path } =>
            "game manifest declares no runtime library: "@ + manifest_path@,
        LaunchError::MissingGameLibrary { path } => "installed game library is missing: "@ + path@
            + "\nhelp: declare and deploy the game library from the game artifact"@,
    }
}

impl LaunchError {
    /// The text that reports the error.
    pub fn message(&self) -> (m: String)
        ensures
            m@ == message_of(*self),
    {
        match self {
            LaunchError::NoGameDependency { manifest_path } => {
                let mut m = String::from_str("packagepack manifest has no game dependency: ");
                m.append(manifest_path.as_str());
                m
            },
            LaunchError::UnresolvedContentRoot { packagepack_root } => {
                let mut m = String::from_str(
                    "cannot resolve installed content root from packagepack root '",
                );
                m.append(packagepack_root.as_str());
                m.append("'");
                m
            },
            LaunchError::GameNotInstalled { game_id, expected } => {
                let mut m = String::from_str("packagepack game is not installed: ");
                m.append(game_id.as_str());
                m.append("\n  expected: ");
                m.append(expected.as_str());
                m
            },
            LaunchError::NoEngineDependency { manifest_path } => {
                let mut m = String::from_str("game manifest has no engine dependency: ");
                m.append(manifest_path.as_str());
                m
            },
            LaunchError::EngineMismatch { game_id, required, selected } => {
                let mut m = String::from_str("game '");
                m.append(game_id.as_str());
                m.append("' requires engine '");
                m.append(required.as_str());
                m.append("', but packagepack selected '");
                m.append(selected.as_str());
                m.append("'");
                m
            },
            LaunchError::NoRuntimeLibrary { manifest_path } => {
                let mut m = String::from_str("game manifest declares no runtime library: ");
                m.append(manifest_path.as_str());
                m
            },
            LaunchError::MissingGameLibrary { path } => {
                let mut m = String::from_str("installed game library is missing: ");
                m.append(path.as_str());
                m.append("\nhelp: declare and deploy the game library from the game artifact");
                m
            },
        }
    }
}

/// The `n`-th ancestor of a path, taking `Path::parent` `n` times; none
/// when some step has no parent.
pub open spec fn ancestor(root: Seq<char>, n: nat) -> Option<Seq<char>>
    decreases n,
{
    if n == 0 {
        Some(root)
    } else {
        match ancestor(root, (n - 1) as nat) {
            Some(p) => spec_path_parent(p),
            None => None,
        }
    }
}

/// Once an ancestor is missing, every further one is too.
proof fn lemma_ancestor_none(root: Seq<char>, m: nat, n: nat)
    requires
        m <= n,
        ancestor(root, m) is None,
    ensures
        ancestor(root, n) is None,
    decreases n,
{
    if n > m {
        lemma_ancestor_none(root, m, (n - 1) as nat);
    }
}

/// A prefix of a list keeps no more non-empty pieces than the whole list.
proof fn lemma_keep_nonempty_prefix(parts: Seq<Seq<char>>, i: int)
    requires
        0 <= i <= parts.len(),
    ensures
        keep_nonempty(parts.take(i)).len() <= keep_nonempty(parts).len(),
    decreases parts.len(),
{
    if i == parts.len() {
        assert(parts.take(i) =~= parts);
    } else {
        assert(parts.drop_last().take(i) =~= parts.take(i));
        lemma_keep_nonempty_prefix(parts.drop_last(), i);
    }
}

/// The directory under which content is installed, given the packagepack's
/// root and id: the root with one trailing component removed per non-empty
/// part of the id.
pub fn installed_content_root(packagepack_root: &str, packagepack_id: &str) -> (r: Result<
    String,
    LaunchError,
>)
    ensures
        match ancestor(packagepack_root@, id_parts(packagepack_id@).len()) {
            Some(root) => r matches Ok(dir) && dir@ == root,
            None => r matches Err(LaunchError::UnresolvedContentRoot { packagepack_root: shown })
                && shown@ == packagepack_root@,
        },
{
    let id = chars_of(packagepack_id);
    let parts = split_chars(&id, '/');
    let ghost all = views(parts@);
    let mut root = String::from_str(packagepack_root);
    let mut popped: usize = 0;
    let mut i: usize = 0;
    assert(all.take(0) =~= Seq::<Seq<char>>::empty());
    while i < parts.len()
        invariant
            all == views(parts@),
            all == split_on(packagepack_id@, '/'),
            i <= parts@.len(),
            popped <= i,
            popped as int == keep_nonempty(all.take(i as int)).len(),
            ancestor(packagepack_root@, popped as nat) == Some(root@),
        decreases parts@.len() - i,
    {
        assert(all.take(i + 1).drop_last() =~= all.take(i as int));
        assert(all.take(i + 1).last() == parts@[i as int]@);
        if parts[i].len() > 0 {
            match path_parent(root.as_str()) {
                Some(parent) => {
                    root = parent;
                    popped = popped + 1;
                },
                None => {
                    proof {
                        lemma_keep_nonempty_prefix(all, i + 1);
                        lemma_ancestor_none(
                            packagepack_root@,
                            (popped + 1) as nat,
                            id_parts(packagepack_id@).len(),
                        );
                    }
                    let shown = String::from_str(packagepack_root);
                    return Err(LaunchError::UnresolvedContentRoot { packagepack_root: shown });
                },
            }
        }
        i = i + 1;
    }
    assert(all.take(parts@.len() as int) =~= all);
    Ok(root)
}

/// Where the packagepack's game is: its id and its install directory.
pub struct GameLocation {
    pub game_id: String,
    pub game_root: String,
}

/// The game that a packagepack manifest names: the `id` of its `game`
/// dependency, or else the `id` entry of its `[packagepack.game]` table.
pub open spec fn packagepack_game_of(manifest: Seq<char>) -> Option<Seq<char>> {
    match dependency_of(manifest, "packagepack"@, "game"@) {
        Some(id) => Some(id),
        None => value_of(manifest, "packagepack.game"@, "id"@),
    }
}

/// Finds the packagepack's game from the packagepack manifest: its id, and
/// the directory it is installed in, which is the content root joined with
/// the id's path.
pub fn locate_game(packagepack_root: &str, packagepack_id: &str, packagepack_manifest: &str) -> (r:
    Result<GameLocation, LaunchError>)
    ensures
        match packagepack_game_of(packagepack_manifest@) {
            None => r matches Err(LaunchError::NoGameDependency { manifest_path }) && manifest_path@
                == spec_path_join(packagepack_root@, "Packagepack.vapor.toml"@),
            Some(id) => match ancestor(packagepack_root@, id_parts(packagepack_id@).len()) {
                None => r matches Err(LaunchError::UnresolvedContentRoot { packagepack_root: shown })
                    && shown@ == packagepack_root@,
                Some(installed) => r matches Ok(loc) && loc.game_id@ == id && loc.game_root@
                    == spec_path_join(installed, id_path_of(id)),
            },
        },
{
    let game_id = match manifest_dependency_id(packagepack_manifest, "packagepack", "game") {
        Some(id) => id,
        None => match manifest_value(packagepack_manifest, "packagepack.game", "id") {
            Some(id) => id,
            None => {
                let manifest_path = path_join(packagepack_root, "Packagepack.vapor.toml");
                return Err(LaunchError::NoGameDependency { manifest_path });
            },
        },
    };
    let installed = match installed_content_root(packagepack_root, packagepack_id) {
        Ok(dir) => dir,
        Err(e) => return Err(e),
    };
    let rel = id_path(game_id.as_str());
    let game_root = path_join(installed.as_str(), rel.as_str());
    Ok(GameLocation { game_id, game_root })
}

/// What the game manifest tells: the title to show and the runtime library.
pub struct GameDetails {
    pub game_title: String,
    pub game_library_name: String,
}

/// The engine that a game manifest asks for: the `id` of its `engine`
/// dependency, or else the `id` entry of its `[game.engine]` table.
pub open spec fn game_engine_of(manifest: Seq<char>) -> Option<Seq<char>> {
    match dependency_of(manifest, "game"@, "engine"@) {
        Some(id) => Some(id),
        None => value_of(manifest, "game.engine"@, "id"@),
    }
}

/// The title to show: the Steam title, else the game's name, else the last
/// component of its id.
pub open spec fn game_title_of(manifest: Seq<char>, game_id: Seq<char>) -> Seq<char> {
    match value_of(manifest, "game.steam"@, "title"@) {
        Some(t) => t,
        None => match value_of(manifest, "game"@, "name"@) {
            Some(n) => n,
            None => after_last(game_id, '/'),
        },
    }
}

/// The first runtime library that the game manifest declares.
pub open spec fn game_library_of(manifest: Seq<char>) -> Option<Seq<char>> {
    match array_of(manifest, "game"@, "libraries"@) {
        Some(items) => if items.len() > 0 {
            Some(items[0])
        } else {
            None
        },
        None => None,
    }
}

/// Reads the game manifest: checks that the game asks for the selected
/// engine, and finds its title and runtime library.
pub fn inspect_game_manifest(game_id: &str, game_root: &str, engine_id: &str, game_manifest: &str) -> (r:
    Result<GameDetails, LaunchError>)
    ensures
        match game_engine_of(game_manifest@) {
            None => r matches Err(LaunchError::NoEngineDependency { manifest_path }) && manifest_path@
                == spec_path_join(game_root@, "Game.vapor.toml"@),
            Some(engine) => if engine != engine_id@ {
                r matches Err(LaunchError::EngineMismatch { game_id: g, required, selected }) && g@
                    == game_id@ && required@ == engine && selected@ == engine_id@
            } else {
                match game_library_of(game_manifest@) {
                    None => r matches Err(LaunchError::NoRuntimeLibrary { manifest_path })
                        && manifest_path@ == spec_path_join(game_root@, "Game.vapor.toml"@),
                    Some(lib) => r matches Ok(d) && d.game_title@ == game_title_of(
                        game_manifest@,
                        game_id@,
                    ) && d.game_library_name@ == lib,
                }
            },
        },
{
    let engine = match manifest_dependency_id(game_manifest, "game", "engine") {
        Some(id) => id,
        None => match manifest_value(game_manifest, "game.engine", "id") {
            Some(id) => id,
            None => {
                let manifest_path = path_join(game_root, "Game.vapor.toml");
                return Err(LaunchError::NoEngineDependency { manifest_path });
            },
        },
    };
    let engine_chars = chars_of(engine.as_str());
    let selected_chars = chars_of(engine_id);
    if !crate::text::chars_eq(&engine_chars, &selected_chars) {
        return Err(
            LaunchError::EngineMismatch {
                game_id: String::from_str(game_id),
                required: engine,
                selected: String::from_str(engine_id),
            },
        );
    }
    let game_title = match manifest_value(game_manifest, "game.steam", "title") {
        Some(t) => t,
        None => match manifest_value(game_manifest, "game", "name") {
            Some(n) => n,
            None => short_id(game_id),
        },
    };
    let libraries = manifest_array_strings(game_manifest, "game", "libraries");
    let game_library_name = match libraries {
        Some(items) => {
            if items.len() > 0 {
                assert(string_views(items@)[0] == items@[0]@);
                items[0].clone()
            } else {
                let manifest_path = path_join(game_root, "Game.vapor.toml");
                return Err(LaunchError::NoRuntimeLibrary { manifest_path });
            }
        },
        None => {
            let manifest_path = path_join(game_root, "Game.vapor.toml");
            return Err(LaunchError::NoRuntimeLibrary { manifest_path });
        },
    };
    Ok(GameDetails { game_title, game_library_name })
}

/// Everything a launch resolved.
pub struct LaunchContext {
    pub target: String,
    pub packagepack_id: String,
    pub packagepack_root: String,
    pub engine_id: String,
    pub engine_root: String,
    pub runtime_target: String,
    pub game_id: String,
    pub game_root: String,
    pub game_title: String,
    pub game_library_name: String,
}

/// Where the game's runtime library is installed:
/// `<game root>/lib/<runtime target>/<library file name>`.
pub open spec fn game_library_path_of(c: LaunchContext) -> Seq<char> {
    spec_path_join(
        spec_path_join(spec_path_join(c.game_root@, "lib"@), c.runtime_target@),
        library_file_name_of(c.game_library_name@, c.runtime_target@),
    )
}

impl LaunchContext {
    /// The path where the game's runtime library is installed.
    pub fn game_library_path(&self) -> (p: String)
        ensures
            p@ == game_library_path_of(*self),
    {
        let lib_dir = path_join(self.game_root.as_str(), "lib");
        let target_dir = path_join(lib_dir.as_str(), self.runtime_target.as_str());
        let file = library_file_name(self.game_library_name.as_str(), self.runtime_target.as_str());
        path_join(target_dir.as_str(), file.as_str())
    }
}

/// The title shown for a game: its Steam title when the manifest has a
/// quoted one; otherwise its `[game]` name when there is a quoted one;
/// otherwise the last part of its id.
pub proof fn lemma_title_choice(manifest: Seq<char>, game_id: Seq<char>)
    ensures
        value_of(manifest, "game.steam"@, "title"@) matches Some(t) ==> game_title_of(
            manifest,
            game_id,
        ) == t,
        value_of(manifest, "game.steam"@, "title"@) is None ==> (value_of(
            manifest,
            "game"@,
            "name"@,
        ) matches Some(n) ==> game_title_of(manifest, game_id) == n),
        value_of(manifest, "game.steam"@, "title"@) is None && value_of(manifest, "game"@, "name"@)
            is None ==> game_title_of(manifest, game_id) == after_last(game_id, '/'),
{
}

} // verus!
