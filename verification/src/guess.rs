//! The rules of the number-guessing game.
//!
//! The secret lies in `RANGE_START..=RANGE_END`; the player has
//! `MAX_GUESSES` valid guesses, and input that is not a valid guess costs
//! nothing. A `Game` takes one line of input at a time (or the end of the
//! input) and answers with the lines to print and, once decided, the outcome.

use vstd::prelude::*;
use crate::text::{
    all_ws, decimal, law_parse_u32_of_decimal, lemma_trimmed_ignores_surrounding_ws, parse_u32,
    parse_u32_spec, string_views, trim, trimmed, u32_to_string, with_number,
};

verus! {

/// The smallest secret number.
pub const RANGE_START: u32 = 1;

/// The largest secret number.
pub const RANGE_END: u32 = 100;

/// How many valid guesses a player has.
pub const MAX_GUESSES: u32 = 7;

/// Why a line of input is not a valid guess.
#[derive(Debug, PartialEq, Eq, Clone, Copy)]
pub enum GuessError {
    /// The input is not a `u32` at all ("abc", an empty line, a negative number).
    NotANumber,
    /// A number, but outside `RANGE_START..=RANGE_END`.
    OutOfRange(u32),
}

/// What `parse_guess` gives for `input`.
pub open spec fn parse_guess_spec(input: Seq<char>) -> Result<u32, GuessError> {
    match parse_u32_spec(trimmed(input)) {
        None => Err(GuessError::NotANumber),
        Some(n) => if RANGE_START <= n && n <= RANGE_END {
            Ok(n)
        } else {
            Err(GuessError::OutOfRange(n))
        },
    }
}

/// Turns one raw line (trailing newline included) into a guess.
pub fn parse_guess(input: &str) -> (r: Result<u32, GuessError>)
    ensures
        r == parse_guess_spec(input@),
{
    match parse_u32(trim(input)) {
        None => Err(GuessError::NotANumber),
        Some(n) => if RANGE_START <= n && n <= RANGE_END {
            Ok(n)
        } else {
            Err(GuessError::OutOfRange(n))
        },
    }
}

/// The message for a rejected guess.
pub open spec fn guess_error_message(e: GuessError) -> Seq<char> {
    match e {
        GuessError::NotANumber => "That's not a number. Enter an integer between "@ + decimal(
            RANGE_START as nat,
        ) + " and "@ + decimal(RANGE_END as nat) + "."@,
        GuessError::OutOfRange(n) => decimal(n as nat) + " is outside the "@ + decimal(
            RANGE_START as nat,
        ) + "..="@ + decimal(RANGE_END as nat) + " range."@,
    }
}

impl GuessError {
    /// The message shown to the player.
    pub fn to_string(&self) -> (r: String)
        ensures
            r@ == guess_error_message(*self),
    {
        match self {
            GuessError::NotANumber => {
                let mut r = String::from_str("That's not a number. Enter an integer between ");
                r.append(u32_to_string(RANGE_START).as_str());
                r.append(" and ");
                r.append(u32_to_string(RANGE_END).as_str());
                r.append(".");
                r
            },
            GuessError::OutOfRange(n) => {
                let mut r = u32_to_string(*n);
                r.append(" is outside the ");
                r.append(u32_to_string(RANGE_START).as_str());
                r.append("..=");
                r.append(u32_to_string(RANGE_END).as_str());
                r.append(" range.");
                r
            },
        }
    }
}


/// Draws a number uniformly from `low..=high`.
///
/// Trusted: calls `rand::random_range(low..=high)`, which samples rand's
/// thread-local generator; rand documents the value as lying in the given
/// range and panics only for an empty range, which `requires` rules out.
/// Which number comes out is chance and is not stated. (rand also panics if
/// the operating system's random source fails when the generator is first
/// seeded; no argument of this function can rule that out.)
#[verifier::external_body]
fn random_in(low: u32, high: u32) -> (n: u32)
    requires
        low <= high,
    ensures
        low <= n <= high,
{
    rand::random_range(low..=high)
}

/// How a game ended.
#[derive(Debug, PartialEq, Eq, Clone, Copy)]
pub enum GameOutcome {
    /// The secret was guessed, with this many valid guesses.
    Won { attempts: u32 },
    /// Every valid guess was used without finding the secret.
    OutOfGuesses,
    /// The input ended before the game was decided.
    InputClosed,
}

/// The abstract state of a game: the secret, the number of the current
/// attempt, and the outcome once there is one.
pub type GameView = (u32, u32, Option<GameOutcome>);

/// The line that opens a game.
pub open spec fn intro_message() -> Seq<char> {
    "Guess the number! I'm thinking of a number between "@ + decimal(RANGE_START as nat)
        + " and "@ + decimal(RANGE_END as nat) + "."@
}

/// The line shown before each attempt.
pub open spec fn banner_message(attempt: u32) -> Seq<char> {
    "--- Attempt "@ + decimal(attempt as nat) + "/"@ + decimal(MAX_GUESSES as nat) + " ---"@
}

/// The answer to an input that is not a valid guess.
pub open spec fn retry_message(e: GuessError) -> Seq<char> {
    guess_error_message(e) + " Try again."@
}

/// The answer to a valid guess below the secret.
pub open spec fn too_small_message(guess: u32) -> Seq<char> {
    decimal(guess as nat) + " is too small!"@
}

/// The answer to a valid guess above the secret.
pub open spec fn too_big_message(guess: u32) -> Seq<char> {
    decimal(guess as nat) + " is too big!"@
}

/// The answer to the winning guess.
pub open spec fn win_message(guess: u32, attempt: u32) -> Seq<char> {
    "You guessed "@ + decimal(guess as nat) + " \u{2014} you win in "@ + decimal(attempt as nat)
        + " attempts!"@
}

/// The line printed when the input ends mid-game.
pub open spec fn closed_message(secret: u32) -> Seq<char> {
    "\nInput closed. The secret number was "@ + decimal(secret as nat) + "."@
}

/// The line printed when every guess is used up.
pub open spec fn out_of_guesses_message(secret: u32) -> Seq<char> {
    "Out of guesses! The secret number was "@ + decimal(secret as nat) + "."@
}

/// The state after one line of input (`None`: the input ended), and the
/// lines to print.
pub open spec fn step_spec(s: GameView, line: Option<Seq<char>>) -> (GameView, Seq<Seq<char>>) {
    let (secret, attempt, outcome) = s;
    if outcome is Some {
        (s, Seq::empty())
    } else {
        match line {
            None => ((secret, attempt, Some(GameOutcome::InputClosed)), seq![closed_message(secret)]),
            Some(l) => match parse_guess_spec(l) {
                Err(e) => (s, seq![retry_message(e), banner_message(attempt)]),
                Ok(g) => if g == secret {
                    (
                        (secret, attempt, Some(GameOutcome::Won { attempts: attempt })),
                        seq![win_message(g, attempt)],
                    )
                } else {
                    let hint = if g < secret {
                        too_small_message(g)
                    } else {
                        too_big_message(g)
                    };
                    let next = (attempt + 1) as u32;
                    if next > MAX_GUESSES {
                        (
                            (secret, next, Some(GameOutcome::OutOfGuesses)),
                            seq![hint, out_of_guesses_message(secret)],
                        )
                    } else {
                        ((secret, next, None), seq![hint, banner_message(next)])
                    }
                },
            },
        }
    }
}

/// What every reachable game state satisfies.
pub open spec fn game_inv(s: GameView) -> bool {
    let (secret, attempt, outcome) = s;
    &&& 1 <= attempt <= MAX_GUESSES + 1
    &&& (attempt == MAX_GUESSES + 1 <==> outcome == Some(GameOutcome::OutOfGuesses))
    &&& (outcome matches Some(GameOutcome::Won { attempts }) ==> attempts == attempt)
}

/// A line that parses as a guess gives a number in `RANGE_START..=RANGE_END`.
pub proof fn law_guess_in_range(input: Seq<char>)
    ensures
        parse_guess_spec(input) matches Ok(n) ==> RANGE_START <= n <= RANGE_END,
{
}

/// Whitespace around the input, such as the line break that reading a line
/// leaves, does not change the guess.
pub proof fn law_guess_ignores_surrounding_ws(w1: Seq<char>, s: Seq<char>, w2: Seq<char>)
    requires
        all_ws(w1),
        all_ws(w2),
    ensures
        parse_guess_spec(w1 + s + w2) == parse_guess_spec(s),
{
    lemma_trimmed_ignores_surrounding_ws(w1, s, w2);
}

/// A number written in decimal is accepted exactly when it is in range, and
/// is otherwise rejected as out of range, carrying the number.
pub proof fn law_guess_of_decimal(n: u32)
    ensures
        parse_guess_spec(decimal(n as nat)) == if RANGE_START <= n && n <= RANGE_END {
            Ok::<u32, GuessError>(n)
        } else {
            Err(GuessError::OutOfRange(n))
        },
{
    law_parse_u32_of_decimal(n);
}

/// Every step keeps the game's invariant: at most `MAX_GUESSES` attempts, the
/// attempt past the last one only when the guesses ran out, and a win
/// reporting the attempt it happened on.
pub proof fn law_step_keeps_invariant(s: GameView, line: Option<Seq<char>>)
    requires
        game_inv(s),
    ensures
        game_inv(step_spec(s, line).0),
{
}

/// Input that is not a valid guess costs no attempt and changes nothing.
pub proof fn law_invalid_input_costs_nothing(s: GameView, line: Seq<char>)
    requires
        s.2 is None,
        parse_guess_spec(line) is Err,
    ensures
        step_spec(s, Some(line)).0 == s,
{
}

/// A valid guess that misses uses exactly one attempt.
pub proof fn law_miss_uses_one_attempt(s: GameView, line: Seq<char>)
    requires
        game_inv(s),
        s.2 is None,
        parse_guess_spec(line) matches Ok(g) && g != s.0,
    ensures
        step_spec(s, Some(line)).0.1 == s.1 + 1,
        step_spec(s, Some(line)).0.2 is None || step_spec(s, Some(line)).0.2 == Some(
            GameOutcome::OutOfGuesses,
        ),
{
}

/// A valid guess that misses is answered "too small" exactly when the number
/// is below the secret and "too big" exactly when it is above it.
pub proof fn law_hint_compares_numbers(s: GameView, line: Seq<char>, g: u32)
    requires
        s.2 is None,
        parse_guess_spec(line) == Ok::<u32, GuessError>(g),
        g != s.0,
    ensures
        step_spec(s, Some(line)).1.len() == 2,
        (step_spec(s, Some(line)).1[0] == decimal(g as nat) + " is too small!"@) <==> g < s.0,
        (step_spec(s, Some(line)).1[0] == decimal(g as nat) + " is too big!"@) <==> g > s.0,
{
    reveal_strlit(" is too small!");
    reveal_strlit(" is too big!");
    let d = decimal(g as nat);
    let small = d + " is too small!"@;
    let big = d + " is too big!"@;
    assert(small.len() != big.len());
    assert(small != big);
}

/// A decided game ignores any further input.
pub proof fn law_decided_game_is_final(s: GameView, line: Option<Seq<char>>)
    requires
        s.2 is Some,
    ensures
        step_spec(s, line) == (s, Seq::<Seq<char>>::empty()),
{
}

/// A win is reported with between one and `MAX_GUESSES` attempts.
pub proof fn law_win_attempts_in_bounds(s: GameView)
    requires
        game_inv(s),
    ensures
        s.2 matches Some(GameOutcome::Won { attempts }) ==> 1 <= attempts <= MAX_GUESSES,
{
}

/// The opening line of a game.
pub fn intro() -> (r: String)
    ensures
        r@ == intro_message(),
{
    let mut r = with_number("Guess the number! I'm thinking of a number between ", RANGE_START, " and ");
    r.append(u32_to_string(RANGE_END).as_str());
    r.append(".");
    r
}

/// What one line of input produced.
pub struct Turn {
    /// The lines to print, in order.
    pub lines: Vec<String>,
    /// The outcome, once the game is decided.
    pub outcome: Option<GameOutcome>,
}

/// One game of guessing the number.
pub struct Game {
    secret: u32,
    attempt: u32,
    outcome: Option<GameOutcome>,
}

impl View for Game {
    type V = GameView;

    closed spec fn view(&self) -> GameView {
        (self.secret, self.attempt, self.outcome)
    }
}

impl Game {
    #[verifier::type_invariant]
    closed spec fn inv(self) -> bool {
        game_inv(self@)
    }

    /// A fresh game with the given secret, at its first attempt.
    pub fn new(secret: u32) -> (g: Game)
        ensures
            g@ == (secret, 1u32, None::<GameOutcome>),
            game_inv(g@),
    {
        Game { secret, attempt: 1, outcome: None }
    }

    /// A fresh game whose secret is drawn at random from `RANGE_START..=RANGE_END`.
    pub fn new_random() -> (g: Game)
        ensures
            RANGE_START <= g@.0 <= RANGE_END,
            g@.1 == 1,
            g@.2 is None,
    {
        Game::new(random_in(RANGE_START, RANGE_END))
    }

    /// The banner of the current attempt.
    pub fn banner(&self) -> (r: String)
        ensures
            r@ == banner_message(self@.1),
    {
        let mut r = with_number("--- Attempt ", self.attempt, "/");
        r.append(u32_to_string(MAX_GUESSES).as_str());
        r.append(" ---");
        r
    }

    /// The outcome, once the game is decided.
    pub fn outcome(&self) -> (r: Option<GameOutcome>)
        ensures
            r == self@.2,
    {
        self.outcome
    }

    /// Takes one line of input, or `None` when the input has ended.
    pub fn step(&mut self, line: Option<&str>) -> (t: Turn)
        ensures
            ({
                let (next, lines) = step_spec(
                    old(self)@,
                    match line {
                        Some(l) => Some(l@),
                        None => None,
                    },
                );
                &&& final(self)@ == next
                &&& string_views(t.lines@) == lines
                &&& t.outcome == next.2
            }),
            game_inv(old(self)@),
            game_inv(final(self)@),
    {
        proof {
            use_type_invariant(&*self);
        }
        let mut lines: Vec<String> = Vec::new();
        if self.outcome.is_some() {
            assert(string_views(lines@) =~= Seq::<Seq<char>>::empty());
            return Turn { lines, outcome: self.outcome };
        }
        match line {
            None => {
                lines.push(with_number("\nInput closed. The secret number was ", self.secret, "."));
                self.outcome = Some(GameOutcome::InputClosed);
                assert(string_views(lines@) =~= seq![closed_message(self.secret)]);
            },
            Some(l) => match parse_guess(l) {
                Err(e) => {
                    let mut m = e.to_string();
                    m.append(" Try again.");
                    lines.push(m);
                    lines.push(self.banner());
                    assert(string_views(lines@) =~= seq![retry_message(e), banner_message(self.attempt)]);
                },
                Ok(g) => {
                    if g == self.secret {
                        let mut m = with_number("You guessed ", g, " \u{2014} you win in ");
                        m.append(u32_to_string(self.attempt).as_str());
                        m.append(" attempts!");
                        lines.push(m);
                        self.outcome = Some(GameOutcome::Won { attempts: self.attempt });
                        assert(string_views(lines@) =~= seq![win_message(g, self.attempt)]);
                    } else {
                        let ghost hint = if g < self.secret {
                            too_small_message(g)
                        } else {
                            too_big_message(g)
                        };
                        let mut m = u32_to_string(g);
                        if g < self.secret {
                            m.append(" is too small!");
                        } else {
                            m.append(" is too big!");
                        }
                        lines.push(m);
                        assert(lines@[0]@ == hint);
                        if self.attempt >= MAX_GUESSES {
                            *self = Game {
                                secret: self.secret,
                                attempt: self.attempt + 1,
                                outcome: Some(GameOutcome::OutOfGuesses),
                            };
                            lines.push(
                                with_number("Out of guesses! The secret number was ", self.secret, "."),
                            );
                            assert(string_views(lines@) =~= seq![hint, out_of_guesses_message(self.secret)]);
                        } else {
                            self.attempt = self.attempt + 1;
                            lines.push(self.banner());
                            assert(string_views(lines@) =~= seq![hint, banner_message(self.attempt)]);
                        }
                    }
                },
            },
        }
        Turn { lines, outcome: self.outcome }
    }
}

} // verus!
