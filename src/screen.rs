use vstd::prelude::*;
use vstd::string::*;

use crate::game::Game;

verus! {

/// The screen the front end shows.
#[derive(Clone, Copy, PartialEq, Eq, Debug, Structural)]
pub enum CurrentScreen {
    Main,
    NewGame,
    Exiting,
}

/// The steps of setting up a new match.
#[derive(Clone, Copy, PartialEq, Eq, Debug, Structural)]
pub enum NewGamePopups {
    NumberOfPlayers,
    PlayerNames,
}

/// The popup shown over the screen, if any.
#[derive(Clone, Copy, PartialEq, Eq, Debug, Structural)]
pub enum Popups {
    NoPopup,
    NewGamePopups(NewGamePopups),
}

/// What kind of key was pressed.
#[derive(Clone, Copy, PartialEq, Eq, Debug, Structural)]
pub enum KeyKind {
    Char(char),
    Enter,
    Backspace,
    Delete,
    Other,
}

/// A key press: its kind, and the text the terminal shows for the key
/// ("5", "Space", "Left", "F1", ...).
pub struct KeyPress {
    pub kind: KeyKind,
    pub text: String,
}

/// Why a player count could not be read.
#[derive(Clone, Copy, PartialEq, Eq, Debug, Structural)]
pub enum CountError {
    Empty,
    InvalidDigit,
    TooLarge,
}

/// The front end's state around a match: which screen and popup are shown,
/// the text being typed, and the last error message.
pub struct State {
    pub game: Game,
    pub current_screen: CurrentScreen,
    pub current_popup: Popups,
    pub total_players: u8,
    pub input_buffer: String,
    pub error: String,
}

/// The screen state as values (the match itself is left out: keys never touch it).
pub struct ScreenView {
    pub screen: CurrentScreen,
    pub popup: Popups,
    pub total_players: u8,
    pub input: Seq<char>,
    pub error: Seq<char>,
}

pub open spec fn is_digit(c: char) -> bool {
    '0' <= c <= '9'
}

/// `s` is a non-empty run of decimal digits.
pub open spec fn is_digit_text(s: Seq<char>) -> bool {
    s.len() > 0 && forall|i: int| 0 <= i < s.len() ==> is_digit(#[trigger] s[i])
}

/// Reads the decimal digits `s` from the left, `acc` being the value of the
/// digits read before them: the first character that is no digit, or the
/// first digit that takes the value above 255, decides the error.
pub open spec fn read_digits(s: Seq<char>, acc: int) -> Result<u8, CountError>
    decreases s.len(),
{
    if s.len() == 0 {
        Ok(acc as u8)
    } else if !is_digit(s[0]) {
        Err(CountError::InvalidDigit)
    } else if acc * 10 + (s[0] as int - '0' as int) > 255 {
        Err(CountError::TooLarge)
    } else {
        read_digits(s.drop_first(), acc * 10 + (s[0] as int - '0' as int))
    }
}

/// Reading a player count, with the grammar of an unsigned 8-bit integer:
/// an optional `+`, then at least one decimal digit. Empty text, a lone `+`,
/// a character that is no digit, and a number above 255 are refused.
pub open spec fn count_of(s: Seq<char>) -> Result<u8, CountError> {
    if s.len() == 0 {
        Err(CountError::Empty)
    } else if s[0] == '+' {
        if s.len() == 1 {
            Err(CountError::InvalidDigit)
        } else {
            read_digits(s.drop_first(), 0)
        }
    } else {
        read_digits(s, 0)
    }
}

pub open spec fn too_many_players_msg() -> Seq<char> {
    "You've entered too many players (max 4)"@
}

/// The message shown when a player count cannot be read.
pub open spec fn count_error_msg(e: CountError) -> Seq<char> {
    match e {
        CountError::Empty => "cannot parse integer from empty string"@,
        CountError::InvalidDigit => "invalid digit found in string"@,
        CountError::TooLarge => "number too large to fit in target type"@,
    }
}

/// `s` without its last character (unchanged when empty).
pub open spec fn drop_last_char(s: Seq<char>) -> Seq<char> {
    if s.len() == 0 {
        s
    } else {
        s.drop_last()
    }
}

/// A key in the popup that asks for the number of players.
pub open spec fn count_popup_step(s: ScreenView, k: KeyKind, text: Seq<char>) -> ScreenView {
    match k {
        KeyKind::Delete | KeyKind::Backspace => ScreenView { input: drop_last_char(s.input), ..s },
        KeyKind::Enter => match count_of(s.input) {
            Ok(n) => if n < 5 {
                ScreenView {
                    popup: Popups::NewGamePopups(NewGamePopups::PlayerNames),
                    total_players: n,
                    input: Seq::empty(),
                    ..s
                }
            } else {
                ScreenView { error: too_many_players_msg(), ..s }
            },
            Err(e) => ScreenView { error: count_error_msg(e), ..s },
        },
        KeyKind::Char('q') => ScreenView { screen: CurrentScreen::Exiting, ..s },
        _ => if is_digit_text(text) {
            ScreenView { input: s.input + text, ..s }
        } else {
            s
        },
    }
}

/// A key in the popup that asks for a player's name.
pub open spec fn name_popup_step(s: ScreenView, k: KeyKind, text: Seq<char>) -> ScreenView {
    match k {
        KeyKind::Delete | KeyKind::Backspace => ScreenView { input: drop_last_char(s.input), ..s },
        KeyKind::Enter => ScreenView { input: Seq::empty(), ..s },
        _ => ScreenView { input: s.input + text, ..s },
    }
}

/// Keys that act on every screen: `q` asks to quit, `n` opens a new match.
pub open spec fn global_step(s: ScreenView, k: KeyKind) -> ScreenView {
    match k {
        KeyKind::Char('q') => ScreenView { screen: CurrentScreen::Exiting, ..s },
        KeyKind::Char('n') => ScreenView {
            screen: CurrentScreen::NewGame,
            popup: Popups::NewGamePopups(NewGamePopups::NumberOfPlayers),
            ..s
        },
        _ => s,
    }
}

/// What a key press does: the error is cleared, the shown screen or popup
/// handles the key, then the keys of every screen apply. The flag is set when
/// the key confirms quitting.
pub open spec fn key_step(s: ScreenView, k: KeyKind, text: Seq<char>) -> (ScreenView, bool) {
    let s0 = ScreenView { error: Seq::empty(), ..s };
    match s0.screen {
        CurrentScreen::NewGame => {
            let s1 = match s0.popup {
                Popups::NewGamePopups(NewGamePopups::NumberOfPlayers) => count_popup_step(
                    s0,
                    k,
                    text,
                ),
                Popups::NewGamePopups(NewGamePopups::PlayerNames) => name_popup_step(s0, k, text),
                Popups::NoPopup => s0,
            };
            (global_step(s1, k), false)
        },
        CurrentScreen::Exiting => match k {
            KeyKind::Char('y') => (s0, true),
            KeyKind::Char('n') => (
                global_step(ScreenView { screen: CurrentScreen::Main, ..s0 }, k),
                false,
            ),
            _ => (global_step(s0, k), false),
        },
        CurrentScreen::Main => (global_step(s0, k), false),
    }
}

/// Whether every character of `text` is a decimal digit, and there is one.
pub fn digit_text(text: &str) -> (r: bool)
    ensures
        r == is_digit_text(text@),
{
    let n = text.unicode_len();
    if n == 0 {
        return false;
    }
    let mut i: usize = 0;
    while i < n
        invariant
            n == text@.len(),
            i <= n,
            forall|j: int| 0 <= j < i ==> is_digit(#[trigger] text@[j]),
        decreases n - i,
    {
        let c = text.get_char(i);
        if !('0' <= c && c <= '9') {
            return false;
        }
        i += 1;
    }
    true
}

/// Reads a player count: an optional `+`, then decimal digits (see `count_of`).
pub fn parse_count(text: &str) -> (r: Result<u8, CountError>)
    ensures
        r == count_of(text@),
{
    let n = text.unicode_len();
    if n == 0 {
        return Err(CountError::Empty);
    }
    let start: usize = if text.get_char(0) == '+' {
        1
    } else {
        0
    };
    if start == 1 && n == 1 {
        return Err(CountError::InvalidDigit);
    }
    assert(text@.subrange(start as int, n as int) =~= if start == 1 {
        text@.drop_first()
    } else {
        text@
    });
    let mut acc: u32 = 0;
    let mut i: usize = start;
    while i < n
        invariant
            n == text@.len(),
            start <= i <= n,
            acc <= 255,
            count_of(text@) == read_digits(text@.subrange(i as int, n as int), acc as int),
        decreases n - i,
    {
        let ghost rest = text@.subrange(i as int, n as int);
        assert(rest[0] == text@[i as int]);
        assert(rest.drop_first() =~= text@.subrange(i + 1, n as int));
        let c = text.get_char(i);
        if !('0' <= c && c <= '9') {
            return Err(CountError::InvalidDigit);
        }
        let d = (c as u32) - ('0' as u32);
        let next = acc * 10 + d;
        if next > 255 {
            return Err(CountError::TooLarge);
        }
        acc = next;
        i += 1;
    }
    assert(text@.subrange(n as int, n as int).len() == 0);
    Ok(acc as u8)
}

/// `s` without its last character.
fn without_last(s: &String) -> (r: String)
    ensures
        r@ == drop_last_char(s@),
{
    let n = s.as_str().unicode_len();
    if n == 0 {
        String::new()
    } else {
        String::from_str(s.as_str().substring_char(0, n - 1))
    }
}

fn count_error_message(e: CountError) -> (r: String)
    ensures
        r@ == count_error_msg(e),
{
    match e {
        CountError::Empty => String::from_str("cannot parse integer from empty string"),
        CountError::InvalidDigit => String::from_str("invalid digit found in string"),
        CountError::TooLarge => String::from_str("number too large to fit in target type"),
    }
}

impl State {
    pub open spec fn screen_view(&self) -> ScreenView {
        ScreenView {
            screen: self.current_screen,
            popup: self.current_popup,
            total_players: self.total_players,
            input: self.input_buffer@,
            error: self.error@,
        }
    }

    /// The main screen, with no popup, no input and no error, around `game`.
    pub fn new(game: Game) -> (r: State)
        ensures
            r.game == game,
            r.screen_view() == (ScreenView {
                screen: CurrentScreen::Main,
                popup: Popups::NoPopup,
                total_players: 0,
                input: Seq::empty(),
                error: Seq::empty(),
            }),
    {
        State {
            game,
            current_screen: CurrentScreen::Main,
            current_popup: Popups::NoPopup,
            input_buffer: String::new(),
            total_players: 0,
            error: String::new(),
        }
    }

    /// Handles one key press (see `key_step`); returns whether the user
    /// confirmed quitting.
    pub fn handle_key(&mut self, key: &KeyPress) -> (quit: bool)
        ensures
            final(self).game == old(self).game,
            (final(self).screen_view(), quit) == key_step(
                old(self).screen_view(),
                key.kind,
                key.text@,
            ),
    {
        self.reset_error();
        match self.current_screen {
            CurrentScreen::NewGame => match self.current_popup {
                Popups::NewGamePopups(NewGamePopups::NumberOfPlayers) => self.count_popup_key(key),
                Popups::NewGamePopups(NewGamePopups::PlayerNames) => self.name_popup_key(key),
                Popups::NoPopup => {},
            },
            CurrentScreen::Exiting => match key.kind {
                KeyKind::Char('y') => {
                    return true;
                },
                KeyKind::Char('n') => {
                    self.current_screen = CurrentScreen::Main;
                },
                _ => {},
            },
            CurrentScreen::Main => {},
        }
        match key.kind {
            KeyKind::Char('q') => {
                self.current_screen = CurrentScreen::Exiting;
            },
            KeyKind::Char('n') => {
                self.set_current_screen_new_game();
            },
            _ => {},
        }
        false
    }

    fn count_popup_key(&mut self, key: &KeyPress)
        ensures
            final(self).game == old(self).game,
            final(self).screen_view() == count_popup_step(
                old(self).screen_view(),
                key.kind,
                key.text@,
            ),
    {
        match key.kind {
            KeyKind::Delete | KeyKind::Backspace => {
                self.input_buffer = without_last(&self.input_buffer);
            },
            KeyKind::Enter => match parse_count(self.input_buffer.as_str()) {
                Ok(total_players) => {
                    if total_players < 5 {
                        self.set_popup_state(Popups::NewGamePopups(NewGamePopups::PlayerNames));
                        self.total_players = total_players;
                        self.input_buffer = String::new();
                    } else {
                        self.set_error(String::from_str("You've entered too many players (max 4)"));
                    }
                },
                Err(e) => self.set_error(count_error_message(e)),
            },
            KeyKind::Char('q') => {
                self.current_screen = CurrentScreen::Exiting;
            },
            _ => {
                if digit_text(key.text.as_str()) {
                    self.input_buffer.append(key.text.as_str());
                }
            },
        }
    }

    fn name_popup_key(&mut self, key: &KeyPress)
        ensures
            final(self).game == old(self).game,
            final(self).screen_view() == name_popup_step(
                old(self).screen_view(),
                key.kind,
                key.text@,
            ),
    {
        match key.kind {
            KeyKind::Delete | KeyKind::Backspace => {
                self.input_buffer = without_last(&self.input_buffer);
            },
            KeyKind::Enter => {
                self.input_buffer = String::new();
            },
            _ => {
                self.input_buffer.append(key.text.as_str());
            },
        }
    }

    /// Opens a new match: the new-game screen, asking for the number of players.
    pub fn set_current_screen_new_game(&mut self)
        ensures
            final(self).game == old(self).game,
            final(self).screen_view() == (ScreenView {
                screen: CurrentScreen::NewGame,
                popup: Popups::NewGamePopups(NewGamePopups::NumberOfPlayers),
                ..old(self).screen_view()
            }),
    {
        self.current_screen = CurrentScreen::NewGame;
        self.current_popup = Popups::NewGamePopups(NewGamePopups::NumberOfPlayers);
    }

    pub fn set_current_screen(&mut self, screen: CurrentScreen)
        ensures
            final(self).game == old(self).game,
            final(self).screen_view() == (ScreenView { screen: screen, ..old(self).screen_view() }),
    {
        self.current_screen = screen;
    }

    pub fn set_error(&mut self, error_str: String)
        ensures
            final(self).game == old(self).game,
            final(self).screen_view() == (ScreenView {
                error: error_str@,
                ..old(self).screen_view()
            }),
    {
        self.error = error_str
    }

    pub fn reset_error(&mut self)
        ensures
            final(self).game == old(self).game,
            final(self).screen_view() == (ScreenView {
                error: Seq::empty(),
                ..old(self).screen_view()
            }),
    {
        self.error = String::new()
    }

    pub fn set_popup_state(&mut self, popup: Popups)
        ensures
            final(self).game == old(self).game,
            final(self).screen_view() == (ScreenView { popup: popup, ..old(self).screen_view() }),
    {
        self.current_popup = popup;
    }
}

} // verus!
