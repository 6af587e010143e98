//! The guessing game: reading a guess, and whole games driven line by line.

use rusty_projects::guess::{
    intro, parse_guess, Game, GameOutcome, GuessError, MAX_GUESSES, RANGE_END, RANGE_START,
};
use std::io::{BufRead, BufReader};

/// Drives one game from `input` the way the program does, printing what the
/// game answers, and returns how it ended.
fn play(secret_number: u32, input: &mut impl BufRead) -> GameOutcome {
    let mut game = Game::new(secret_number);
    println!("{}", intro());
    println!("{}", game.banner());
    loop {
        let mut line = String::new();
        let read = input.read_line(&mut line).expect("Failed to read line");
        let turn = game.step(if read == 0 { None } else { Some(line.as_str()) });
        for text in &turn.lines {
            println!("{text}");
        }
        if let Some(outcome) = turn.outcome {
            return outcome;
        }
    }
}

/// Plays the lines of `input` and returns everything printed.
fn transcript(secret_number: u32, input: &str) -> (Vec<String>, GameOutcome) {
    let mut game = Game::new(secret_number);
    let mut out = vec![intro(), game.banner()];
    let mut lines = input.split_inclusive('\n');
    loop {
        let turn = game.step(lines.next());
        out.extend(turn.lines);
        if let Some(outcome) = turn.outcome {
            return (out, outcome);
        }
    }
}

#[test]
fn accepts_plain_number() {
    assert_eq!(parse_guess("42"), Ok(42));
}

#[test]
fn trims_newline_from_read_line() {
    assert_eq!(parse_guess("42\n"), Ok(42));
    assert_eq!(parse_guess("  7 \r\n"), Ok(7));
}

#[test]
fn accepts_range_endpoints() {
    assert_eq!(parse_guess("1"), Ok(RANGE_START));
    assert_eq!(parse_guess("100"), Ok(RANGE_END));
}

#[test]
fn rejects_non_numbers() {
    assert_eq!(parse_guess("abc"), Err(GuessError::NotANumber));
    assert_eq!(parse_guess(""), Err(GuessError::NotANumber));
    assert_eq!(parse_guess("3.14"), Err(GuessError::NotANumber));
    assert_eq!(parse_guess("-5"), Err(GuessError::NotANumber));
}

#[test]
fn rejects_out_of_range() {
    assert_eq!(parse_guess("0"), Err(GuessError::OutOfRange(0)));
    assert_eq!(parse_guess("101"), Err(GuessError::OutOfRange(101)));
}

#[test]
fn error_message_guides_player() {
    assert!(GuessError::NotANumber.to_string().contains("not a number"));
    assert!(GuessError::OutOfRange(101).to_string().contains("101"));
}

#[test]
fn wins_on_first_guess() {
    let mut input = BufReader::new(&b"42\n"[..]);
    assert_eq!(play(42, &mut input), GameOutcome::Won { attempts: 1 });
}

#[test]
fn win_reports_attempt_count() {
    let mut input = BufReader::new(&b"50\n75\n42\n"[..]);
    assert_eq!(play(42, &mut input), GameOutcome::Won { attempts: 3 });
}

#[test]
fn runs_out_of_guesses() {
    let mut input = BufReader::new(&b"1\n2\n3\n4\n5\n6\n7\n"[..]);
    assert_eq!(play(50, &mut input), GameOutcome::OutOfGuesses);
}

#[test]
fn invalid_input_keeps_attempt() {
    let mut input = BufReader::new(&b"abc\n101\n42\n"[..]);
    assert_eq!(play(42, &mut input), GameOutcome::Won { attempts: 1 });
}

#[test]
fn input_closed_mid_game() {
    let mut input = BufReader::new(&b"10\n"[..]);
    assert_eq!(play(50, &mut input), GameOutcome::InputClosed);
}

// Beyond the original suite.

#[test]
fn parse_guess_agrees_with_std_parse_and_range() {
    let inputs = [
        "0", "1", "7", "42", "99", "100", "101", "+5", "+", "++5", "-0", "007", " 8\t", "\u{a0}9\u{3000}",
        "4294967295", "4294967296", "99999999999999", "1_0", "٣", "5x", "x5", "", "  ", "\n",
    ];
    for input in inputs {
        let expected = match input.trim().parse::<u32>() {
            Err(_) => Err(GuessError::NotANumber),
            Ok(n) if (1..=100).contains(&n) => Ok(n),
            Ok(n) => Err(GuessError::OutOfRange(n)),
        };
        assert_eq!(parse_guess(input), expected, "{input:?}");
    }
}

#[test]
fn every_number_in_decimal_reads_back() {
    for n in [0u32, 1, 9, 10, 55, 100, 101, 12345, u32::MAX] {
        let expected = if (1..=100).contains(&n) { Ok(n) } else { Err(GuessError::OutOfRange(n)) };
        assert_eq!(parse_guess(&n.to_string()), expected);
        assert_eq!(parse_guess(&format!(" \t{n}\r\n")), expected);
    }
}

#[test]
fn error_messages_are_exact() {
    assert_eq!(
        GuessError::NotANumber.to_string(),
        "That's not a number. Enter an integer between 1 and 100."
    );
    assert_eq!(GuessError::OutOfRange(0).to_string(), "0 is outside the 1..=100 range.");
    assert_eq!(GuessError::OutOfRange(4294967295).to_string(), "4294967295 is outside the 1..=100 range.");
}

#[test]
fn a_game_prints_what_the_original_prints() {
    let (out, outcome) = transcript(42, "50\nabc\n101\n30\n42\n");
    assert_eq!(outcome, GameOutcome::Won { attempts: 3 });
    assert_eq!(
        out,
        vec![
            "Guess the number! I'm thinking of a number between 1 and 100.",
            "--- Attempt 1/7 ---",
            "50 is too big!",
            "--- Attempt 2/7 ---",
            "That's not a number. Enter an integer between 1 and 100. Try again.",
            "--- Attempt 2/7 ---",
            "101 is outside the 1..=100 range. Try again.",
            "--- Attempt 2/7 ---",
            "30 is too small!",
            "--- Attempt 3/7 ---",
            "You guessed 42 — you win in 3 attempts!",
        ]
    );
}

#[test]
fn losing_and_closing_print_the_secret() {
    let (out, outcome) = transcript(50, "1\n2\n3\n4\n5\n6\n7\n8\n");
    assert_eq!(outcome, GameOutcome::OutOfGuesses);
    assert_eq!(out.last().unwrap(), "Out of guesses! The secret number was 50.");
    assert_eq!(out.iter().filter(|l| l.starts_with("--- Attempt")).count(), MAX_GUESSES as usize);

    let (out, outcome) = transcript(77, "");
    assert_eq!(outcome, GameOutcome::InputClosed);
    assert_eq!(out.last().unwrap(), "\nInput closed. The secret number was 77.");
}

#[test]
fn a_decided_game_ignores_more_input() {
    let mut game = Game::new(5);
    let turn = game.step(Some("5\n"));
    assert_eq!(turn.outcome, Some(GameOutcome::Won { attempts: 1 }));
    let again = game.step(Some("6\n"));
    assert!(again.lines.is_empty());
    assert_eq!(again.outcome, Some(GameOutcome::Won { attempts: 1 }));
    assert_eq!(game.outcome(), Some(GameOutcome::Won { attempts: 1 }));
    let closed = game.step(None);
    assert!(closed.lines.is_empty());
}

#[test]
fn random_secrets_lie_in_range_and_vary() {
    let mut seen = std::collections::BTreeSet::new();
    for _ in 0..300 {
        let mut game = Game::new_random();
        let turn = game.step(None);
        let text = &turn.lines[0];
        let number: u32 = text
            .trim_start_matches("\nInput closed. The secret number was ")
            .trim_end_matches('.')
            .parse()
            .unwrap();
        assert!((RANGE_START..=RANGE_END).contains(&number), "{number}");
        seen.insert(number);
    }
    assert!(seen.len() > 1);
}
