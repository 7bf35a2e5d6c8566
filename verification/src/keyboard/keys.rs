//! Lane keys: which names are valid, and which physical keys they stand for.
use crate::text;
use crate::text::{chars_of, is_alphanumeric_char, quoted, same_chars, upper_char, upper_chars};
use vstd::prelude::*;
use vstd::string::*;

verus! {

/// Why lane keys are refused.
#[derive(Debug, PartialEq, Eq)]
pub enum KeyError {
    NoKeys,
    Duplicate(String),
    Empty,
    NotAlphanumeric(String),
}

impl KeyError {
    /// The text for a reader.
    pub open spec fn wording(&self) -> Seq<char> {
        match self {
            KeyError::NoKeys => "at least one lane key is required"@,
            KeyError::Duplicate(key) => "lane key "@ + text::debug_text(key@)
                + " is duplicated; every lane key must be unique"@,
            KeyError::Empty => "empty key"@,
            KeyError::NotAlphanumeric(key) => "lane key "@ + text::debug_text(key@)
                + " must be one ASCII letter or digit"@,
        }
    }

    pub fn message(&self) -> (message: String)
        ensures
            message@ == self.wording(),
    {
        match self {
            KeyError::NoKeys => "at least one lane key is required".to_owned(),
            KeyError::Duplicate(key) => {
                let mut message: String = "lane key ".to_owned();
                message.append(quoted(key.as_str()).as_str());
                message.append(" is duplicated; every lane key must be unique");
                message
            },
            KeyError::Empty => "empty key".to_owned(),
            KeyError::NotAlphanumeric(key) => {
                let mut message: String = "lane key ".to_owned();
                message.append(quoted(key.as_str()).as_str());
                message.append(" must be one ASCII letter or digit");
                message
            },
        }
    }
}

/// Whether a key already stands before its place, in upper or lower case.
pub open spec fn repeats_key(keys: Seq<String>, i: int) -> bool {
    exists|j: int|
        0 <= j < i && text::uppered(#[trigger] keys[j]@) == text::uppered(keys[i]@)
}

/// The first key, from `from` on, that already stands before its place.
pub open spec fn first_repeated(keys: Seq<String>, from: nat) -> Option<int>
    decreases keys.len() - from,
{
    if from >= keys.len() {
        None
    } else if repeats_key(keys, from as int) {
        Some(from as int)
    } else {
        first_repeated(keys, from + 1)
    }
}

pub fn validate_lane_keys(keys: &Vec<String>) -> (result: Result<(), KeyError>)
    ensures
        match (result, first_repeated(keys@, 0)) {
            (Ok(()), None) => true,
            (Err(KeyError::Duplicate(key)), Some(i)) => key@ == keys@[i]@,
            _ => false,
        },
{
    let mut i: usize = 0;
    while i < keys.len()
        invariant
            i <= keys@.len(),
            first_repeated(keys@, 0) == first_repeated(keys@, i as nat),
        decreases keys@.len() - i,
    {
        let mine: Vec<char> = upper_chars(keys[i].as_str());
        let mut j: usize = 0;
        while j < i
            invariant
                j <= i < keys@.len(),
                mine@ == text::uppered(keys@[i as int]@),
                first_repeated(keys@, 0) == first_repeated(keys@, i as nat),
                forall|k: int| 0 <= k < j ==> text::uppered(#[trigger] keys@[k]@) != mine@,
            decreases i - j,
        {
            if same_chars(&upper_chars(keys[j].as_str()), &mine) {
                assert(repeats_key(keys@, i as int));
                return Err(KeyError::Duplicate(keys[i].clone()));
            }
            j = j + 1;
        }
        assert(!repeats_key(keys@, i as int));
        i = i + 1;
    }
    Ok(())
}

/// The one letter or digit that a key names, in upper case, or why it names none.
pub fn key_letter(key: &str) -> (result: Result<char, KeyError>)
    ensures
        match result {
            Ok(letter) => key@.len() == 1 && text::is_alphanumeric(key@[0]) && letter
                == text::upper(key@[0]),
            Err(KeyError::Empty) => key@.len() == 0,
            Err(KeyError::NotAlphanumeric(named)) => key@.len() > 0 && (key@.len() > 1
                || !text::is_alphanumeric(key@[0])) && named@ == key@,
            Err(_) => false,
        },
{
    let chars: Vec<char> = chars_of(key);
    if chars.len() == 0 {
        return Err(KeyError::Empty);
    }
    if chars.len() > 1 || !is_alphanumeric_char(chars[0]) {
        return Err(KeyError::NotAlphanumeric(key.to_owned()));
    }
    Ok(upper_char(chars[0]))
}

/// The evdev code of a letter or digit: a physical position, not what a layout makes of
/// it.
pub open spec fn evdev_code(letter: char) -> u16 {
    match letter {
        '1' => 2,
        '2' => 3,
        '3' => 4,
        '4' => 5,
        '5' => 6,
        '6' => 7,
        '7' => 8,
        '8' => 9,
        '9' => 10,
        '0' => 11,
        'Q' => 16,
        'W' => 17,
        'E' => 18,
        'R' => 19,
        'T' => 20,
        'Y' => 21,
        'U' => 22,
        'I' => 23,
        'O' => 24,
        'P' => 25,
        'A' => 30,
        'S' => 31,
        'D' => 32,
        'F' => 33,
        'G' => 34,
        'H' => 35,
        'J' => 36,
        'K' => 37,
        'L' => 38,
        'Z' => 44,
        'X' => 45,
        'C' => 46,
        'V' => 47,
        'B' => 48,
        'N' => 49,
        _ => 50,
    }
}

/// The evdev code of a lane key.
pub fn linux_keycode(key: &str) -> (result: Result<u16, KeyError>)
    ensures
        match result {
            Ok(code) => key@.len() == 1 && text::is_alphanumeric(key@[0]) && code == evdev_code(
                text::upper(key@[0]),
            ),
            Err(KeyError::Empty) => key@.len() == 0,
            Err(KeyError::NotAlphanumeric(named)) => key@.len() > 0 && (key@.len() > 1
                || !text::is_alphanumeric(key@[0])) && named@ == key@,
            Err(_) => false,
        },
{
    let letter: char = match key_letter(key) {
        Ok(letter) => letter,
        Err(error) => {
            return Err(error);
        },
    };
    Ok(
        match letter {
            '1' => 2,
            '2' => 3,
            '3' => 4,
            '4' => 5,
            '5' => 6,
            '6' => 7,
            '7' => 8,
            '8' => 9,
            '9' => 10,
            '0' => 11,
            'Q' => 16,
            'W' => 17,
            'E' => 18,
            'R' => 19,
            'T' => 20,
            'Y' => 21,
            'U' => 22,
            'I' => 23,
            'O' => 24,
            'P' => 25,
            'A' => 30,
            'S' => 31,
            'D' => 32,
            'F' => 33,
            'G' => 34,
            'H' => 35,
            'J' => 36,
            'K' => 37,
            'L' => 38,
            'Z' => 44,
            'X' => 45,
            'C' => 46,
            'V' => 47,
            'B' => 48,
            'N' => 49,
            _ => 50,
        },
    )
}

/// The Windows virtual key of a lane key: the code of the letter or digit.
pub fn parse_virtual_key(key: &str) -> (result: Result<u16, KeyError>)
    ensures
        match result {
            Ok(code) => key@.len() == 1 && text::is_alphanumeric(key@[0]) && code == text::upper(
                key@[0],
            ) as u16,
            Err(KeyError::Empty) => key@.len() == 0,
            Err(KeyError::NotAlphanumeric(named)) => key@.len() > 0 && (key@.len() > 1
                || !text::is_alphanumeric(key@[0])) && named@ == key@,
            Err(_) => false,
        },
{
    match key_letter(key) {
        Ok(letter) => Ok(letter as u32 as u16),
        Err(error) => Err(error),
    }
}

/// Different letters and digits are different keys.
pub proof fn evdev_codes_differ(a: char, b: char)
    requires
        text::is_upper(a) || text::is_digit(a),
        text::is_upper(b) || text::is_digit(b),
        a != b,
    ensures
        evdev_code(a) != evdev_code(b),
{
}

/// The rows of a keyboard: the digits start at code 2, and the three rows of letters at 16, 30
/// and 44, each key one above its neighbour to the left.
pub proof fn codes_follow_the_rows(n: int)
    ensures
        0 <= n < 10 ==> evdev_code("1234567890"@[n]) == 2 + n,
        0 <= n < 10 ==> evdev_code("QWERTYUIOP"@[n]) == 16 + n,
        0 <= n < 9 ==> evdev_code("ASDFGHJKL"@[n]) == 30 + n,
        0 <= n < 7 ==> evdev_code("ZXCVBNM"@[n]) == 44 + n,
        "1234567890"@.len() == 10 && "QWERTYUIOP"@.len() == 10 && "ASDFGHJKL"@.len() == 9
            && "ZXCVBNM"@.len() == 7,
{
    reveal_strlit("1234567890");
    reveal_strlit("QWERTYUIOP");
    reveal_strlit("ASDFGHJKL");
    reveal_strlit("ZXCVBNM");
}

/// Every letter and digit, in either case, is a key of one of the four rows, and nothing else
/// is: its code is that of its place in the row.
pub proof fn every_key_has_its_place(c: char)
    ensures
        text::is_alphanumeric(c) <==> exists|n: int|
            0 <= n < 36 && #[trigger] "1234567890QWERTYUIOPASDFGHJKLZXCVBNM"@[n] == text::upper(c),
        forall|n: int|
            0 <= n < 36 && #[trigger] "1234567890QWERTYUIOPASDFGHJKLZXCVBNM"@[n] == text::upper(c)
                ==> evdev_code(text::upper(c)) == (if n < 10 {
                2 + n
            } else if n < 20 {
                6 + n
            } else if n < 29 {
                10 + n
            } else {
                15 + n
            }),
{
    reveal_strlit("1234567890QWERTYUIOPASDFGHJKLZXCVBNM");
    let rows = "1234567890QWERTYUIOPASDFGHJKLZXCVBNM"@;
    text::cases_of_letters(c);
    if text::is_alphanumeric(c) {
        assert(row_place(text::upper(c)) < 36);
        assert(rows[row_place(text::upper(c))] == text::upper(c));
    }
}

/// Where a letter or digit stands, row by row.
spec fn row_place(letter: char) -> int {
    let code = evdev_code(letter);
    if code < 12 {
        code - 2
    } else if code < 26 {
        code - 6
    } else if code < 39 {
        code - 10
    } else {
        code - 15
    }
}

pub const INPUT_KEYBOARD: u32 = 1;

/// The key is given by its scan code.
pub const KEYEVENTF_SCANCODE: u32 = 0x0008;

pub const KEYEVENTF_KEYUP: u32 = 0x0002;

/// One keyboard event of the Windows input queue.
#[derive(Clone, Copy, Debug, PartialEq, Eq)]
pub struct KeyInput {
    pub kind: u32,
    pub virtual_key: u16,
    pub scan_code: u16,
    pub flags: u32,
}

/// The event that presses or releases the key of a scan code.
pub fn key_input(scan_code: u16, down: bool) -> (input: KeyInput)
    ensures
        input == (KeyInput {
            kind: INPUT_KEYBOARD,
            virtual_key: 0,
            scan_code,
            flags: if down {
                KEYEVENTF_SCANCODE
            } else {
                (KEYEVENTF_SCANCODE + KEYEVENTF_KEYUP) as u32
            },
        }),
{
    KeyInput {
        kind: INPUT_KEYBOARD,
        virtual_key: 0,
        scan_code,
        flags: if down {
            KEYEVENTF_SCANCODE
        } else {
            KEYEVENTF_SCANCODE + KEYEVENTF_KEYUP
        },
    }
}

} // verus!
