//! The example game: "Hello World on Steroids".
use vstd::prelude::*;
use vstd::string::*;
use crate::reel::TerminalReelGame;
use crate::text::string_views;

verus! {

/// The reel symbols of the example game.
pub open spec fn example_symbols() -> Seq<Seq<char>> {
    seq!["VAPOR"@, "CAST"@, "PACK"@, "MOD"@, "RIFT"@, "LOOP"@]
}

/// Builds the example game definition.
pub fn game() -> (g: TerminalReelGame)
    ensures
        g.title@ == "Hello World on Steroids"@,
        g.subtitle@ == "A tiny terminal game loaded from a Vapor game artifact."@,
        g.prompt@ == "hello-world"@,
        g.starting_charge == 12,
        string_views(g.symbols@) == example_symbols(),
{
    let mut symbols: Vec<String> = Vec::new();
    symbols.push(String::from_str("VAPOR"));
    symbols.push(String::from_str("CAST"));
    symbols.push(String::from_str("PACK"));
    symbols.push(String::from_str("MOD"));
    symbols.push(String::from_str("RIFT"));
    symbols.push(String::from_str("LOOP"));
    assert(string_views(symbols@) =~= example_symbols());
    TerminalReelGame {
        title: String::from_str("Hello World on Steroids"),
        subtitle: String::from_str("A tiny terminal game loaded from a Vapor game artifact."),
        prompt: String::from_str("hello-world"),
        starting_charge: 12,
        symbols,
    }
}

} // verus!
