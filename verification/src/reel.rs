//! The reel game: its definition, the generator that picks reel symbols,
//! the scoring of a spin, and the session state that spins change.
use vstd::prelude::*;
use vstd::string::*;
use crate::text::{
    chars_eq, chars_of, lower, lower_chars, string_of, string_views, trim, trim_chars,
};

verus! {

/// Multiplier of the reel generator.
pub const LCG_MULTIPLIER: u64 = 6364136223846793005;

/// Increment of the reel generator.
pub const LCG_INCREMENT: u64 = 1442695040888963407;

/// The state that follows `state` in the generator's sequence.
pub open spec fn lcg_step(state: u64) -> u64 {
    state.wrapping_mul(LCG_MULTIPLIER).wrapping_add(LCG_INCREMENT)
}

/// The reel position that the generator gives from a new state, for `len`
/// symbols: the high half of the state, modulo `len`.
pub open spec fn lcg_index(state: u64, len: nat) -> int {
    (state >> 32u64) as int % (len as int)
}

/// A linear congruential generator that picks reel positions.
#[derive(Clone, Copy)]
pub struct Lcg {
    pub state: u64,
}

impl Lcg {
    /// Seeds the generator; the low bit of the state is always set.
    pub fn new(seed: u64) -> (lcg: Self)
        ensures
            lcg.state == seed | 1,
            lcg.state % 2 == 1,
    {
        let state = seed | 1;
        assert(state % 2 == 1) by (bit_vector)
            requires
                state == seed | 1,
        ;
        Lcg { state }
    }

    /// Advances the generator and returns a position below `len`.
    pub fn next_index(&mut self, len: usize) -> (index: usize)
        requires
            len > 0,
        ensures
            final(self).state == lcg_step(old(self).state),
            index as int == lcg_index(final(self).state, len as nat),
            index < len,
    {
        let next: u64 = self.state.wrapping_mul(LCG_MULTIPLIER).wrapping_add(LCG_INCREMENT);
        self.state = next;
        let high: u64 = next >> 32u64;
        assert(high <= 0xffff_ffffu64) by (bit_vector)
            requires
                high == next >> 32u64,
        ;
        (high as usize) % len
    }
}

/// Minimal game definition consumed by the terminal engine.
#[derive(Debug, Clone)]
pub struct TerminalReelGame {
    /// Display title.
    pub title: String,
    /// Short one-line description.
    pub subtitle: String,
    /// Interactive prompt prefix.
    pub prompt: String,
    /// Charge available at the start of a session.
    pub starting_charge: i32,
    /// Reel symbols.
    pub symbols: Vec<String>,
}

/// The result of one spin.
pub struct Outcome {
    pub label: &'static str,
    pub points: u32,
    pub charge: i32,
}

/// Whether all three reels show the same symbol.
pub open spec fn full_lock(a: Seq<char>, b: Seq<char>, c: Seq<char>) -> bool {
    a == b && b == c
}

/// Whether some two of the three reels show the same symbol.
pub open spec fn some_pair(a: Seq<char>, b: Seq<char>, c: Seq<char>) -> bool {
    a == b || a == c || b == c
}

/// Score points of three reels.
pub open spec fn points_of(a: Seq<char>, b: Seq<char>, c: Seq<char>) -> u32 {
    if full_lock(a, b, c) {
        30
    } else if some_pair(a, b, c) {
        8
    } else {
        1
    }
}

/// Charge gained from three reels.
pub open spec fn charge_of(a: Seq<char>, b: Seq<char>, c: Seq<char>) -> i32 {
    if full_lock(a, b, c) {
        4
    } else if some_pair(a, b, c) {
        1
    } else {
        0
    }
}

/// Label of three reels.
pub open spec fn label_of(a: Seq<char>, b: Seq<char>, c: Seq<char>) -> Seq<char> {
    if full_lock(a, b, c) {
        "full signal lock"@
    } else if some_pair(a, b, c) {
        "partial signal lock"@
    } else {
        "signal drift"@
    }
}

/// Scores three reels: all alike is a full lock (30 points, 4 charge), two
/// alike a partial lock (8 points, 1 charge), none alike a drift (1 point).
pub fn score_reels(reels: &[String; 3]) -> (o: Outcome)
    ensures
        o.points == points_of(reels@[0]@, reels@[1]@, reels@[2]@),
        o.charge == charge_of(reels@[0]@, reels@[1]@, reels@[2]@),
        o.label@ == label_of(reels@[0]@, reels@[1]@, reels@[2]@),
{
    if reels[0] == reels[1] && reels[1] == reels[2] {
        proof {
            reveal_strlit("full signal lock");
        }
        Outcome { label: "full signal lock", points: 30, charge: 4 }
    } else if reels[0] == reels[1] || reels[0] == reels[2] || reels[1] == reels[2] {
        proof {
            reveal_strlit("partial signal lock");
        }
        Outcome { label: "partial signal lock", points: 8, charge: 1 }
    } else {
        proof {
            reveal_strlit("signal drift");
        }
        Outcome { label: "signal drift", points: 1, charge: 0 }
    }
}

/// The outcome of a spin does not depend on the order of the reels.
pub proof fn lemma_outcome_ignores_order(a: Seq<char>, b: Seq<char>, c: Seq<char>)
    ensures
        points_of(a, b, c) == points_of(b, a, c),
        points_of(a, b, c) == points_of(a, c, b),
        charge_of(a, b, c) == charge_of(b, a, c),
        charge_of(a, b, c) == charge_of(a, c, b),
        label_of(a, b, c) == label_of(b, a, c),
        label_of(a, b, c) == label_of(a, c, b),
{
}

/// The message given for a game without symbols.
pub open spec fn no_symbols_message() -> Seq<char> {
    "terminal reel game requires at least one symbol"@
}

/// What a session is, as contracts see it.
pub struct SessionView {
    pub definition: TerminalReelGame,
    pub rng_state: u64,
    pub spins: u32,
    pub charge: i32,
    pub score: u32,
}

/// A new session for `definition` seeded with `seed`.
pub open spec fn fresh_session(definition: TerminalReelGame, seed: u64) -> SessionView {
    SessionView {
        definition,
        rng_state: seed | 1,
        spins: 0,
        charge: definition.starting_charge,
        score: 0,
    }
}

/// The reel symbols of a session.
pub open spec fn symbols_of(v: SessionView) -> Seq<Seq<char>> {
    string_views(v.definition.symbols@)
}

/// The symbol that a generator state shows.
pub open spec fn drawn(symbols: Seq<Seq<char>>, state: u64) -> Seq<char> {
    symbols[lcg_index(state, symbols.len())]
}

/// The three generator states of the next spin.
pub open spec fn spin_states(state: u64) -> (u64, u64, u64) {
    let s1 = lcg_step(state);
    let s2 = lcg_step(s1);
    (s1, s2, lcg_step(s2))
}

/// The three reels of the next spin.
pub open spec fn next_reels(v: SessionView) -> (Seq<char>, Seq<char>, Seq<char>) {
    let (s1, s2, s3) = spin_states(v.rng_state);
    let syms = symbols_of(v);
    (drawn(syms, s1), drawn(syms, s2), drawn(syms, s3))
}

/// Whether the next spin can run: with charge left, the game has symbols to
/// draw and the counters stay within their integer types.
pub open spec fn spin_fits(v: SessionView) -> bool {
    let (a, b, c) = next_reels(v);
    v.charge <= 0 || (symbols_of(v).len() > 0 && v.spins < u32::MAX && v.score + points_of(a, b, c)
        <= u32::MAX && v.charge - 1 + charge_of(a, b, c) <= i32::MAX)
}

/// The session after a spin with charge left: one more spin, one charge
/// spent, and the outcome's points and charge added.
pub open spec fn after_spin(v: SessionView) -> SessionView {
    let (a, b, c) = next_reels(v);
    SessionView {
        definition: v.definition,
        rng_state: spin_states(v.rng_state).2,
        spins: (v.spins + 1) as u32,
        charge: (v.charge - 1 + charge_of(a, b, c)) as i32,
        score: (v.score + points_of(a, b, c)) as u32,
    }
}

/// The session after a reset: no spins, no score, the starting charge.
pub open spec fn after_reset(v: SessionView) -> SessionView {
    SessionView { spins: 0, charge: v.definition.starting_charge, score: 0, ..v }
}

/// Whether `rep` tells the spin that `v` has next: its reels, their outcome,
/// and the counters after it.
pub open spec fn reports_spin(v: SessionView, rep: SpinReport) -> bool {
    let (a, b, c) = next_reels(v);
    let w = after_spin(v);
    &&& v.charge > 0
    &&& rep.reels@[0]@ == a
    &&& rep.reels@[1]@ == b
    &&& rep.reels@[2]@ == c
    &&& rep.outcome.points == points_of(a, b, c)
    &&& rep.outcome.charge == charge_of(a, b, c)
    &&& rep.outcome.label@ == label_of(a, b, c)
    &&& rep.spin_count == w.spins
    &&& rep.score == w.score
    &&& rep.charge == w.charge
}

/// What a spin reports.
pub struct SpinReport {
    pub spin_count: u32,
    pub reels: [String; 3],
    pub outcome: Outcome,
    pub score: u32,
    pub charge: i32,
}

/// What a spin did.
pub enum SpinResult {
    /// No charge was left; nothing changed.
    ChargeEmpty,
    /// The reels turned.
    Spun(SpinReport),
}

/// A running game session.
pub struct GameSession {
    definition: TerminalReelGame,
    rng: Lcg,
    spin_count: u32,
    charge: i32,
    score: u32,
}

impl View for GameSession {
    type V = SessionView;

    closed spec fn view(&self) -> SessionView {
        SessionView {
            definition: self.definition,
            rng_state: self.rng.state,
            spins: self.spin_count,
            charge: self.charge,
            score: self.score,
        }
    }
}

impl GameSession {
    /// A fresh session: no spins, no score, the definition's starting charge.
    pub fn new(definition: TerminalReelGame, seed: u64) -> (s: Self)
        ensures
            s@ == fresh_session(definition, seed),
    {
        let charge = definition.starting_charge;
        GameSession { definition, rng: Lcg::new(seed), spin_count: 0, charge, score: 0 }
    }

    /// A fresh session for `definition`, or the message refusing a
    /// definition without symbols.
    pub fn open(definition: TerminalReelGame, seed: u64) -> (r: Result<Self, String>)
        ensures
            definition.symbols.len() == 0 <==> r is Err,
            r matches Err(m) ==> m@ == no_symbols_message(),
            r matches Ok(s) ==> s@ == fresh_session(definition, seed),
    {
        if definition.symbols.len() == 0 {
            let m = String::from_str("terminal reel game requires at least one symbol");
            Err(m)
        } else {
            Ok(GameSession::new(definition, seed))
        }
    }

    /// The game definition of the session.
    pub fn definition(&self) -> (d: &TerminalReelGame)
        ensures
            *d == self@.definition,
    {
        &self.definition
    }

    /// The number of spins so far.
    pub fn spin_count(&self) -> (n: u32)
        ensures
            n == self@.spins,
    {
        self.spin_count
    }

    /// The charge left.
    pub fn charge(&self) -> (c: i32)
        ensures
            c == self@.charge,
    {
        self.charge
    }

    /// The score so far.
    pub fn score(&self) -> (n: u32)
        ensures
            n == self@.score,
    {
        self.score
    }

    /// Advances the generator and returns the symbol it shows.
    pub fn next_symbol(&mut self) -> (sym: String)
        requires
            symbols_of(old(self)@).len() > 0,
        ensures
            final(self)@ == (SessionView { rng_state: lcg_step(old(self)@.rng_state), ..old(self)@ }),
            sym@ == drawn(symbols_of(old(self)@), lcg_step(old(self)@.rng_state)),
    {
        let len = self.definition.symbols.len();
        let index = self.rng.next_index(len);
        let sym = self.definition.symbols[index].clone();
        assert(self@.rng_state == lcg_step(old(self)@.rng_state));
        sym
    }

    /// Draws the three reels of a spin.
    fn draw_reels(&mut self) -> (reels: [String; 3])
        requires
            symbols_of(old(self)@).len() > 0,
        ensures
            final(self)@ == (SessionView { rng_state: spin_states(old(self)@.rng_state).2, ..old(self)@ }),
            reels@[0]@ == next_reels(old(self)@).0,
            reels@[1]@ == next_reels(old(self)@).1,
            reels@[2]@ == next_reels(old(self)@).2,
    {
        let r1 = self.next_symbol();
        let r2 = self.next_symbol();
        let r3 = self.next_symbol();
        [r1, r2, r3]
    }

    /// Whether the next spin can run: see `spin_fits`.
    pub fn next_spin_fits(&self) -> (r: bool)
        ensures
            r == spin_fits(self@),
    {
        if self.charge <= 0 {
            return true;
        }
        let len = self.definition.symbols.len();
        if len == 0 {
            return false;
        }
        let mut rng = self.rng;
        let i1 = rng.next_index(len);
        let i2 = rng.next_index(len);
        let i3 = rng.next_index(len);
        let reels = [
            self.definition.symbols[i1].clone(),
            self.definition.symbols[i2].clone(),
            self.definition.symbols[i3].clone(),
        ];
        let outcome = score_reels(&reels);
        self.spin_count < u32::MAX && outcome.points <= u32::MAX - self.score && (outcome.charge
            <= 1 || self.charge - 1 <= i32::MAX - outcome.charge)
    }

    /// Spins the reels: with no charge left nothing changes; otherwise one
    /// charge is spent, three symbols are drawn, and their outcome's points
    /// and charge are added.
    pub fn spin(&mut self) -> (r: SpinResult)
        requires
            spin_fits(old(self)@),
        ensures
            old(self)@.charge <= 0 ==> r is ChargeEmpty && final(self)@ == old(self)@,
            old(self)@.charge > 0 ==> r is Spun && final(self)@ == after_spin(old(self)@),
            r matches SpinResult::Spun(rep) ==> reports_spin(old(self)@, rep),
    {
        if self.charge <= 0 {
            return SpinResult::ChargeEmpty;
        }
        let reels = self.draw_reels();
        assert(self@ == (SessionView { rng_state: spin_states(old(self)@.rng_state).2, ..old(self)@ }));
        let outcome = score_reels(&reels);
        self.spin_count = self.spin_count + 1;
        self.charge = self.charge - 1;
        self.score = self.score + outcome.points;
        self.charge = self.charge + outcome.charge;
        let report = SpinReport {
            spin_count: self.spin_count,
            reels,
            outcome,
            score: self.score,
            charge: self.charge,
        };
        SpinResult::Spun(report)
    }

    /// Starts the game over: no spins, no score, the starting charge again.
    /// The generator keeps its state.
    pub fn reset(&mut self)
        ensures
            final(self)@ == after_reset(old(self)@),
    {
        self.spin_count = 0;
        self.charge = self.definition.starting_charge;
        self.score = 0;
    }
}

/// A command typed at the game prompt.
pub enum Command {
    Spin,
    Help,
    Status,
    Reset,
    Quit,
    Unknown(String),
}

/// The word a line of input stands for: trimmed and lower-cased.
pub open spec fn command_word(input: Seq<char>) -> Seq<char> {
    lower(trim(input))
}

/// Words that spin the reels; an empty line is one.
pub open spec fn is_spin_word(w: Seq<char>) -> bool {
    w == ""@ || w == "s"@ || w == "spin"@
}

/// Words that ask for help.
pub open spec fn is_help_word(w: Seq<char>) -> bool {
    w == "h"@ || w == "help"@ || w == "?"@
}

/// Words that end the session.
pub open spec fn is_quit_word(w: Seq<char>) -> bool {
    w == "q"@ || w == "quit"@ || w == "exit"@
}

/// Whether `w` is a known command word.
pub open spec fn is_known_word(w: Seq<char>) -> bool {
    is_spin_word(w) || is_help_word(w) || w == "status"@ || w == "reset"@ || is_quit_word(w)
}

/// The command that the word `w` names.
pub open spec fn names_command(w: Seq<char>, c: Command) -> bool {
    match c {
        Command::Spin => is_spin_word(w),
        Command::Help => !is_spin_word(w) && is_help_word(w),
        Command::Status => !is_spin_word(w) && !is_help_word(w) && w == "status"@,
        Command::Reset => !is_spin_word(w) && !is_help_word(w) && w != "status"@ && w == "reset"@,
        Command::Quit => !is_spin_word(w) && !is_help_word(w) && w != "status"@ && w != "reset"@
            && is_quit_word(w),
        Command::Unknown(u) => !is_known_word(w) && u@ == w,
    }
}

/// Whether the characters `w` spell the literal `lit`.
fn word_is(w: &[char], lit: &str) -> (r: bool)
    ensures
        r == (w@ == lit@),
{
    let l = chars_of(lit);
    chars_eq(w, &l)
}

/// Reads a line of input as a command, ignoring surrounding whitespace and
/// ASCII case.
pub fn parse_command(input: &str) -> (c: Command)
    ensures
        names_command(command_word(input@), c),
{
    let cs = chars_of(input);
    let t = trim_chars(&cs);
    let w = lower_chars(&t);
    if word_is(&w, "") || word_is(&w, "s") || word_is(&w, "spin") {
        Command::Spin
    } else if word_is(&w, "h") || word_is(&w, "help") || word_is(&w, "?") {
        Command::Help
    } else if word_is(&w, "status") {
        Command::Status
    } else if word_is(&w, "reset") {
        Command::Reset
    } else if word_is(&w, "q") || word_is(&w, "quit") || word_is(&w, "exit") {
        Command::Quit
    } else {
        Command::Unknown(string_of(&w))
    }
}

/// What the session answers to a command.
pub enum Response {
    /// The reels turned.
    Spun(SpinReport),
    /// No charge is left to spin with.
    ChargeEmpty,
    /// The list of commands is wanted.
    Help,
    /// The counters of the session.
    Status { spins: u32, score: u32, charge: i32 },
    /// The session was started over.
    ResetDone,
    /// The session ends.
    Closed,
    /// The word is not a command.
    Unknown(String),
}

impl GameSession {
    /// Carries out one command: a spin or a reset changes the session, the
    /// other commands leave it as it is.
    pub fn handle(&mut self, command: Command) -> (r: Response)
        requires
            command is Spin ==> spin_fits(old(self)@),
        ensures
            match command {
                Command::Spin => if old(self)@.charge > 0 {
                    &&& final(self)@ == after_spin(old(self)@)
                    &&& r matches Response::Spun(rep) && reports_spin(old(self)@, rep)
                } else {
                    final(self)@ == old(self)@ && r is ChargeEmpty
                },
                Command::Help => final(self)@ == old(self)@ && r is Help,
                Command::Status => final(self)@ == old(self)@ && r == (Response::Status {
                    spins: old(self)@.spins,
                    score: old(self)@.score,
                    charge: old(self)@.charge,
                }),
                Command::Reset => final(self)@ == after_reset(old(self)@) && r is ResetDone,
                Command::Quit => final(self)@ == old(self)@ && r is Closed,
                Command::Unknown(word) => {
                    &&& final(self)@ == old(self)@
                    &&& r matches Response::Unknown(echoed) && echoed@ == word@
                },
            },
    {
        match command {
            Command::Spin => match self.spin() {
                SpinResult::Spun(rep) => Response::Spun(rep),
                SpinResult::ChargeEmpty => Response::ChargeEmpty,
            },
            Command::Help => Response::Help,
            Command::Status => Response::Status {
                spins: self.spin_count,
                score: self.score,
                charge: self.charge,
            },
            Command::Reset => {
                self.reset();
                Response::ResetDone
            },
            Command::Quit => Response::Closed,
            Command::Unknown(word) => Response::Unknown(word),
        }
    }
}

/// A reset session is a new session of the same game, except that the
/// generator goes on from where it was.
pub proof fn lemma_reset_is_fresh(v: SessionView, seed: u64)
    ensures
        after_reset(v) == (SessionView { rng_state: v.rng_state, ..fresh_session(v.definition, seed) }),
{
}

/// Every reel shows one of the game's symbols.
pub proof fn lemma_drawn_is_symbol(symbols: Seq<Seq<char>>, state: u64)
    requires
        symbols.len() > 0,
    ensures
        symbols.contains(drawn(symbols, state)),
{
    let i = lcg_index(state, symbols.len());
    assert(0 <= i < symbols.len());
    assert(symbols[i] == drawn(symbols, state));
}

/// A spin with charge left counts one more spin, adds between 1 and 30
/// points, changes the charge by -1 to +3, and keeps the game definition.
pub proof fn lemma_spin_progress(v: SessionView)
    requires
        v.charge > 0,
        spin_fits(v),
    ensures
        after_spin(v).spins == v.spins + 1,
        v.score + 1 <= after_spin(v).score <= v.score + 30,
        v.charge - 1 <= after_spin(v).charge <= v.charge + 3,
        after_spin(v).definition == v.definition,
{
}

/// Reading a command ignores surrounding whitespace and ASCII case: the word
/// that a normalised word stands for is that word itself.
pub proof fn lemma_command_word_normal(input: Seq<char>)
    ensures
        command_word(command_word(input)) == command_word(input),
{
    crate::text::lemma_trim_lower_trimmed(input);
    crate::text::lemma_lower_idempotent(trim(input));
}

/// ASCII case and surrounding whitespace do not change the command read:
/// a lower-cased or trimmed input stands for the same word.
pub proof fn lemma_command_word_ignores_case_and_padding(input: Seq<char>)
    ensures
        command_word(lower(input)) == command_word(input),
        command_word(trim(input)) == command_word(input),
{
    crate::text::lemma_trim_lower_commute(input);
    crate::text::lemma_lower_idempotent(trim(input));
    crate::text::lemma_trim_idempotent(input);
}

/// Every word that the help lists, and its short forms, names its command:
/// `spin`, `s` and an empty line spin; `help`, `h` and `?` ask for help;
/// `status` and `reset` do what they say; `quit`, `q` and `exit` end the
/// session.
pub proof fn lemma_listed_words_name_their_commands(input: Seq<char>, c: Command)
    requires
        names_command(command_word(input), c),
    ensures
        command_word(input) == "spin"@ || command_word(input) == "s"@ || command_word(input)
            == ""@ ==> c is Spin,
        command_word(input) == "help"@ || command_word(input) == "h"@ || command_word(input)
            == "?"@ ==> c is Help,
        command_word(input) == "status"@ ==> c is Status,
        command_word(input) == "reset"@ ==> c is Reset,
        command_word(input) == "quit"@ || command_word(input) == "q"@ || command_word(input)
            == "exit"@ ==> c is Quit,
{
    reveal_strlit("spin");
    reveal_strlit("s");
    reveal_strlit("");
    reveal_strlit("help");
    reveal_strlit("h");
    reveal_strlit("?");
    reveal_strlit("status");
    reveal_strlit("reset");
    reveal_strlit("quit");
    reveal_strlit("q");
    reveal_strlit("exit");
    assert("spin"@.len() == 4 && "spin"@[0] == 's');
    assert("s"@.len() == 1 && "s"@[0] == 's');
    assert(""@.len() == 0);
    assert("help"@.len() == 4 && "help"@[0] == 'h');
    assert("h"@.len() == 1 && "h"@[0] == 'h');
    assert("?"@.len() == 1 && "?"@[0] == '?');
    assert("status"@.len() == 6 && "status"@[0] == 's');
    assert("reset"@.len() == 5 && "reset"@[0] == 'r');
    assert("quit"@.len() == 4 && "quit"@[0] == 'q');
    assert("q"@.len() == 1 && "q"@[0] == 'q');
    assert("exit"@.len() == 4 && "exit"@[0] == 'e');
    let w = command_word(input);
    if w == "spin"@ || w == "s"@ || w == ""@ {
        assert(is_spin_word(w));
    } else if w == "help"@ || w == "h"@ || w == "?"@ {
        assert(w[0] != 's' || w.len() != 4);
        assert(!is_spin_word(w));
        assert(is_help_word(w));
    } else if w == "status"@ {
        assert(w[1] == 't');
        assert(!is_spin_word(w));
        assert(!is_help_word(w));
    } else if w == "reset"@ {
        assert(w[0] == 'r');
        assert(!is_spin_word(w));
        assert(!is_help_word(w));
        assert(w != "status"@);
    } else if w == "quit"@ || w == "q"@ || w == "exit"@ {
        assert(w[0] == 'q' || w[0] == 'e');
        assert(!is_spin_word(w));
        assert(!is_help_word(w));
        assert(w != "status"@);
        assert(w != "reset"@);
        assert(is_quit_word(w));
    }
}

/// Three alike reels score 30 points and 4 charge; exactly two alike score
/// 8 points and 1 charge; three different reels score 1 point and no charge.
pub proof fn lemma_outcome_table(a: Seq<char>, b: Seq<char>, c: Seq<char>)
    ensures
        a == b && b == c ==> points_of(a, b, c) == 30 && charge_of(a, b, c) == 4,
        (a == b) != (b == c) || (a == c && a != b) ==> points_of(a, b, c) == 8 && charge_of(a, b, c)
            == 1,
        a != b && b != c && a != c ==> points_of(a, b, c) == 1 && charge_of(a, b, c) == 0,
{
}

/// A spin with charge left costs one charge and adds what its reels score:
/// three different reels leave the session one charge and one point
/// further; three alike gain three charge net and thirty points.
pub proof fn lemma_spin_accounting(v: SessionView)
    requires
        v.charge > 0,
        spin_fits(v),
    ensures
        ({
            let (a, b, c) = next_reels(v);
            &&& a != b && b != c && a != c ==> after_spin(v).charge == v.charge - 1
                && after_spin(v).score == v.score + 1
            &&& a == b && b == c ==> after_spin(v).charge == v.charge + 3 && after_spin(v).score
                == v.score + 30
            &&& after_spin(v).spins == v.spins + 1
            &&& after_spin(v).rng_state == lcg_step(lcg_step(lcg_step(v.rng_state)))
        }),
{
}

} // verus!
