use seqkit::guessing::{is_white_space, judge, parse_guess, GuessGame, Reply, Verdict};

#[test]
fn guesses_are_read_like_u32_from_str() {
    assert_eq!(parse_guess("42\n"), Some(42));
    assert_eq!(parse_guess("  7 \t"), Some(7));
    assert_eq!(parse_guess("+15"), Some(15));
    assert_eq!(parse_guess("4294967295"), Some(u32::MAX));
    assert_eq!(parse_guess("4294967296"), None);
    assert_eq!(parse_guess("99999999999999999999"), None);
    assert_eq!(parse_guess("-1"), None);
    assert_eq!(parse_guess("4 2"), None);
    assert_eq!(parse_guess("abc"), None);
    assert_eq!(parse_guess("+"), None);
    assert_eq!(parse_guess("   "), None);
    assert_eq!(parse_guess(""), None);
}

#[test]
fn white_space_matches_std() {
    for c in ['\t', '\n', '\r', ' ', '\u{85}', '\u{a0}', '\u{2009}', '\u{3000}', 'a', '0', '_'] {
        assert_eq!(is_white_space(c), c.is_whitespace());
    }
}

#[test]
fn judging_guesses() {
    assert_eq!(judge(3, 50), Verdict::TooSmall);
    assert_eq!(judge(80, 50), Verdict::TooBig);
    assert_eq!(judge(50, 50), Verdict::Win);
}

#[test]
fn a_game_ends_on_the_right_guess() {
    let mut game = GuessGame::with_secret(37);
    assert_eq!(game.guess("hello\n"), Reply::Ignored);
    assert_eq!(game.guess("12\n"), Reply::Judged(Verdict::TooSmall));
    assert_eq!(game.guess("90\n"), Reply::Judged(Verdict::TooBig));
    assert!(!game.is_finished());
    assert_eq!(game.guess(" 37 \n"), Reply::Judged(Verdict::Win));
    assert!(game.is_finished());
    assert_eq!(game.secret_number(), 37);
}

#[test]
fn random_secret_is_in_range() {
    let mut seen = Vec::new();
    for _ in 0..50 {
        let game = GuessGame::start();
        assert!(game.secret_number() <= 100);
        assert!(!game.is_finished());
        seen.push(game.secret_number());
    }
    assert!(seen.iter().any(|s| *s != seen[0]));
}
