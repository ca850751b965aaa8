//! What the operator types: commands, amounts and credentials.

use crate::text::{chars_of, compare_keys, KeyOrder};
use vstd::prelude::*;
use vstd::string::*;

verus! {

/// What the operator can ask for at the prompt.
#[derive(Clone, Copy, Debug, PartialEq, Eq, Structural)]
pub enum Command {
    Help,
    Quit,
    Backup,
    Throttle,
    SetBucket,
    Usage,
    Unknown,
}

/// `text` in lower case, as `str::to_lowercase` maps it.
pub uninterp spec fn lowercase_of(text: Seq<char>) -> Seq<char>;

/// The lower-case form of `text`. This is `str::to_lowercase`, which maps
/// each character as the Unicode property Lowercase has it; the contract
/// gives that mapping a name and says no more of it.
#[verifier::external_body]
fn to_lowercase(text: &str) -> (lower: String)
    ensures
        lower@ == lowercase_of(text@),
{
    text.to_lowercase()
}

/// The characters that count as white space: those with the Unicode
/// property White_Space.
pub open spec fn is_white_space(c: char) -> bool {
    let code = c as u32;
    ||| 0x09 <= code <= 0x0d
    ||| code == 0x20
    ||| code == 0x85
    ||| code == 0xa0
    ||| code == 0x1680
    ||| 0x2000 <= code <= 0x200a
    ||| code == 0x2028
    ||| code == 0x2029
    ||| code == 0x202f
    ||| code == 0x205f
    ||| code == 0x3000
}

/// The length of `text` without the white space at its end.
pub open spec fn trimmed_length(text: Seq<char>) -> nat
    decreases text.len(),
{
    if text.len() > 0 && is_white_space(text.last()) {
        trimmed_length(text.drop_last())
    } else {
        text.len()
    }
}

/// `text` without the white space at its end.
pub open spec fn without_trailing_space(text: Seq<char>) -> Seq<char> {
    text.take(trimmed_length(text) as int)
}

/// The command that a word stands for.
pub open spec fn command_named(word: Seq<char>) -> Command {
    if word == "help"@ {
        Command::Help
    } else if word == "quit"@ {
        Command::Quit
    } else if word == "backup"@ {
        Command::Backup
    } else if word == "throttle"@ {
        Command::Throttle
    } else if word == "set_bucket"@ {
        Command::SetBucket
    } else if word == "usage"@ {
        Command::Usage
    } else {
        Command::Unknown
    }
}

/// Whether `c` is white space.
fn white_space(c: char) -> (white: bool)
    ensures
        white == is_white_space(c),
{
    let code = c as u32;
    (0x09 <= code && code <= 0x0d) || code == 0x20 || code == 0x85 || code == 0xa0 || code
        == 0x1680 || (0x2000 <= code && code <= 0x200a) || code == 0x2028 || code == 0x2029
        || code == 0x202f || code == 0x205f || code == 0x3000
}

/// Cuts the white space off the end of `text`.
pub fn trim_end(text: &str) -> (trimmed: &str)
    ensures
        trimmed@ == without_trailing_space(text@),
{
    let chars = chars_of(text);
    let mut end = chars.len();
    assert(text@.take(text@.len() as int) =~= text@);
    while end > 0 && white_space(chars[end - 1])
        invariant
            end <= chars.len(),
            chars@ == text@,
            trimmed_length(text@) == trimmed_length(text@.take(end as int)),
        decreases end,
    {
        assert(text@.take(end as int).drop_last() =~= text@.take(end - 1));
        end -= 1;
    }
    text.substring_char(0, end)
}

/// Whether `word` is the given name.
fn is_word(word: &str, name: &str) -> (same: bool)
    ensures
        same == (word@ == name@),
{
    match compare_keys(word, name) {
        KeyOrder::Same => true,
        _ => false,
    }
}

/// The command that `word` stands for. A word is a command's name exactly,
/// or it is unknown.
pub fn recognize_command(word: &str) -> (command: Command)
    ensures
        command == command_named(word@),
{
    if is_word(word, "help") {
        Command::Help
    } else if is_word(word, "quit") {
        Command::Quit
    } else if is_word(word, "backup") {
        Command::Backup
    } else if is_word(word, "throttle") {
        Command::Throttle
    } else if is_word(word, "set_bucket") {
        Command::SetBucket
    } else if is_word(word, "usage") {
        Command::Usage
    } else {
        Command::Unknown
    }
}

/// The command in a line that is in lower case already: the word that is
/// left when the white space at the end of the line is cut off.
pub fn command_in(lowered: &str) -> (command: Command)
    ensures
        command == command_named(without_trailing_space(lowered@)),
{
    recognize_command(trim_end(lowered))
}

/// Reads a line of the prompt as a command: upper and lower case count the
/// same, and white space at the end of the line does not count.
pub fn parse_command(line: &str) -> (command: Command)
    ensures
        command == command_named(without_trailing_space(lowercase_of(line@))),
{
    let lower = to_lowercase(line);
    command_in(lower.as_str())
}

/// The value of a decimal digit, if `c` is one.
pub open spec fn digit_value(c: char) -> Option<nat> {
    let code = c as u32;
    if 0x30 <= code <= 0x39 {
        Some((code - 0x30) as nat)
    } else {
        None
    }
}

/// The number that a run of decimal digits stands for, if `digits` is one.
pub open spec fn digits_value(digits: Seq<char>) -> Option<nat>
    decreases digits.len(),
{
    if digits.len() == 0 {
        None
    } else if digits.len() == 1 {
        digit_value(digits[0])
    } else {
        match (digits_value(digits.drop_last()), digit_value(digits.last())) {
            (Some(head), Some(d)) => Some(10 * head + d),
            _ => None,
        }
    }
}

/// The amount that `text` stands for: a run of decimal digits, with or
/// without a plus sign before it, and nothing else, stands for its number
/// where that fits the machine word.
pub open spec fn amount_of(text: Seq<char>) -> Option<usize> {
    let digits = if text.len() > 0 && text[0] == '+' {
        text.drop_first()
    } else {
        text
    };
    match digits_value(digits) {
        Some(value) => if value <= usize::MAX {
            Some(value as usize)
        } else {
            None
        },
        None => None,
    }
}

/// Reads `text` as an amount.
pub fn parse_amount(text: &str) -> (amount: Option<usize>)
    ensures
        amount == amount_of(text@),
{
    let chars = chars_of(text);
    let first: usize = if chars.len() > 0 && chars[0] == '+' {
        1
    } else {
        0
    };
    let ghost digits = if first == 1 {
        text@.drop_first()
    } else {
        text@
    };
    if first == chars.len() {
        return None;
    }
    let limit: u128 = usize::MAX as u128 + 1;
    let mut value: u128 = 0;
    assert(digits =~= text@.skip(first as int));
    let mut i: usize = first;
    while i < chars.len()
        invariant
            first <= i <= chars.len(),
            first < chars.len(),
            chars@ == text@,
            digits == if text@.len() > 0 && text@[0] == '+' {
                text@.drop_first()
            } else {
                text@
            },
            digits == text@.skip(first as int),
            limit == usize::MAX + 1,
            value <= limit,
            i > first ==> (digits_value(digits.take(i - first)) matches Some(v) && value == if v
                < limit {
                v
            } else {
                limit as nat
            }),
            i == first ==> value == 0,
        decreases chars.len() - i,
    {
        let code = chars[i] as u32;
        let ghost head = digits.take(i - first);
        let ghost next = digits.take(i + 1 - first);
        proof {
            assert(next.drop_last() =~= head);
            assert(next.last() == chars@[i as int]);
        }
        if !(0x30 <= code && code <= 0x39) {
            proof {
                assert(digits[i - first] == chars@[i as int]);
                lemma_not_digits(digits, i - first);
            }
            return None;
        }
        let d = (code - 0x30) as u128;
        let grown = 10 * value + d;
        value = if grown < limit {
            grown
        } else {
            limit
        };
        i += 1;
    }
    proof {
        assert(digits.take(digits.len() as int) =~= digits);
    }
    if value < limit {
        Some(value as usize)
    } else {
        None
    }
}

/// A run with a character that is no digit stands for no number.
proof fn lemma_not_digits(digits: Seq<char>, i: int)
    requires
        0 <= i < digits.len(),
        digit_value(digits[i]) is None,
    ensures
        digits_value(digits) is None,
    decreases digits.len(),
{
    if digits.len() > 1 && i < digits.len() - 1 {
        lemma_not_digits(digits.drop_last(), i);
    }
}

/// The line that holds an account's credentials: the account's identifier,
/// a colon and the key.
pub open spec fn credentials_text(account_id: Seq<char>, api_key: Seq<char>) -> Seq<char> {
    account_id + seq![':'] + api_key
}

/// Joins an account's identifier and key to the line that authorizes it.
pub fn credentials_line(account_id: &str, api_key: &str) -> (line: String)
    ensures
        line@ == credentials_text(account_id@, api_key@),
{
    proof {
        reveal_strlit(":");
    }
    let mut line = String::new();
    line.append(account_id);
    line.append(":");
    line.append(api_key);
    assert(line@ =~= credentials_text(account_id@, api_key@));
    line
}

/// Where the sign-in stands.
#[derive(Clone, Copy, Debug, PartialEq, Eq, Structural)]
pub enum AuthState {
    /// The stored credentials are being tried.
    StoredCredentials,
    /// Credentials that the operator typed are being tried.
    TypedCredentials,
    /// The account is authorized.
    Authorized,
    /// The operator's credentials were turned down.
    Refused,
}

/// What the sign-in asks for next.
#[derive(Clone, Copy, Debug, PartialEq, Eq, Structural)]
pub enum AuthAction {
    /// Ask the operator for the account and the key, and try those.
    AskOperator,
    /// Go on with the account as it is authorized.
    Proceed,
    /// Store the credentials that were typed, then go on.
    StoreAndProceed,
    /// Give up and leave the program.
    Exit,
}

/// The sign-in after an attempt that went well or did not, and what it asks
/// for next: stored credentials that fail are replaced by typed ones, typed
/// ones that work are stored, and typed ones that fail end the program.
pub open spec fn auth_step(state: AuthState, authorized: bool) -> (AuthState, AuthAction) {
    match state {
        AuthState::StoredCredentials => if authorized {
            (AuthState::Authorized, AuthAction::Proceed)
        } else {
            (AuthState::TypedCredentials, AuthAction::AskOperator)
        },
        AuthState::TypedCredentials => if authorized {
            (AuthState::Authorized, AuthAction::StoreAndProceed)
        } else {
            (AuthState::Refused, AuthAction::Exit)
        },
        AuthState::Authorized => (AuthState::Authorized, AuthAction::Proceed),
        AuthState::Refused => (AuthState::Refused, AuthAction::Exit),
    }
}

impl AuthState {
    /// The sign-in at its start.
    pub fn start() -> (state: AuthState)
        ensures
            state == AuthState::StoredCredentials,
    {
        AuthState::StoredCredentials
    }

    /// Takes note of an attempt to authorize and says what follows.
    pub fn after_attempt(&mut self, authorized: bool) -> (action: AuthAction)
        ensures
            (*final(self), action) == auth_step(*old(self), authorized),
    {
        match *self {
            AuthState::StoredCredentials => if authorized {
                *self = AuthState::Authorized;
                AuthAction::Proceed
            } else {
                *self = AuthState::TypedCredentials;
                AuthAction::AskOperator
            },
            AuthState::TypedCredentials => if authorized {
                *self = AuthState::Authorized;
                AuthAction::StoreAndProceed
            } else {
                *self = AuthState::Refused;
                AuthAction::Exit
            },
            AuthState::Authorized => AuthAction::Proceed,
            AuthState::Refused => AuthAction::Exit,
        }
    }
}

} // verus!
