use psutil::{Error, State};

const LETTERS: [(char, State); 9] = [
    ('R', State::Running),
    ('S', State::Sleeping),
    ('D', State::Waiting),
    ('T', State::Stopped),
    ('t', State::Traced),
    ('W', State::Paging),
    ('Z', State::Zombie),
    ('X', State::Dead),
    ('I', State::Idle),
];

#[test]
fn state_letters_decode() {
    for (letter, state) in LETTERS {
        assert_eq!(State::from_char(letter), Ok(state));
    }
}

#[test]
fn state_letters_round_trip() {
    for (letter, _) in LETTERS {
        let state = State::from_char(letter).unwrap();
        assert_eq!(state.to_char(), letter);
        assert_eq!(state.to_string(), letter.to_string());
    }
}

#[test]
fn states_round_trip() {
    for (_, state) in LETTERS {
        assert_eq!(State::from_char(state.to_char()), Ok(state));
        assert_eq!(State::from_str(&state.to_string()), Ok(state));
    }
}

#[test]
fn waiting_and_stopped_keep_their_own_letters() {
    assert_eq!(State::Waiting.to_char(), 'D');
    assert_eq!(State::Stopped.to_char(), 'T');
    assert_eq!(State::Traced.to_char(), 't');
    assert_ne!(State::Waiting.to_char(), State::Stopped.to_char());
}

#[test]
fn unknown_state_letter_is_refused() {
    assert_eq!(State::from_char('Q'), Err(Error::InvalidState));
    assert_eq!(State::from_char('r'), Err(Error::InvalidState));
    assert_eq!(State::from_char(' '), Err(Error::InvalidState));
    assert_eq!(State::from_char('\0'), Err(Error::InvalidState));
}

#[test]
fn status_field_is_one_letter() {
    assert_eq!(State::from_str("S"), Ok(State::Sleeping));
    assert_eq!(State::from_str(""), Err(Error::InvalidState));
    assert_eq!(State::from_str("SS"), Err(Error::InvalidState));
    assert_eq!(State::from_str("S "), Err(Error::InvalidState));
    assert_eq!(State::from_str("?"), Err(Error::InvalidState));
    assert_eq!(State::from_chars(&['Z']), Ok(State::Zombie));
    assert_eq!(State::from_chars(&['Z', 'Z']), Err(Error::InvalidState));
}

#[test]
fn state_text_is_its_letter() {
    assert_eq!(State::Running.to_string(), "R");
    assert_eq!(State::Sleeping.to_string(), "S");
    assert_eq!(State::Waiting.to_string(), "D");
    assert_eq!(State::Stopped.to_string(), "T");
    assert_eq!(State::Traced.to_string(), "t");
    assert_eq!(State::Paging.to_string(), "W");
    assert_eq!(State::Zombie.to_string(), "Z");
    assert_eq!(State::Dead.to_string(), "X");
    assert_eq!(State::Idle.to_string(), "I");
}
