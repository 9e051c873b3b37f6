//! The two lines of text that show the economy to the player.

use vstd::prelude::*;
use crate::resources::GameState;

verus! {

/// The character of a decimal digit.
pub open spec fn digit(d: int) -> char {
    if d == 0 {
        '0'
    } else if d == 1 {
        '1'
    } else if d == 2 {
        '2'
    } else if d == 3 {
        '3'
    } else if d == 4 {
        '4'
    } else if d == 5 {
        '5'
    } else if d == 6 {
        '6'
    } else if d == 7 {
        '7'
    } else if d == 8 {
        '8'
    } else {
        '9'
    }
}

/// The decimal digits of a natural number, without leading zeros.
pub open spec fn digits(n: nat) -> Seq<char>
    decreases n,
{
    if n < 10 {
        seq![digit(n as int)]
    } else {
        digits(n / 10).push(digit((n % 10) as int))
    }
}

/// An integer in decimal, with a minus sign where it is negative.
pub open spec fn decimal(n: int) -> Seq<char> {
    if n < 0 {
        seq!['-'] + digits((-n) as nat)
    } else {
        digits(n as nat)
    }
}

/// The text of one decimal digit.
fn digit_text(d: u32) -> (text: &'static str)
    requires
        d < 10,
    ensures
        text@ == seq![digit(d as int)],
{
    proof {
        reveal_strlit("0");
        reveal_strlit("1");
        reveal_strlit("2");
        reveal_strlit("3");
        reveal_strlit("4");
        reveal_strlit("5");
        reveal_strlit("6");
        reveal_strlit("7");
        reveal_strlit("8");
        reveal_strlit("9");
    }
    let text: &'static str = if d == 0 {
        "0"
    } else if d == 1 {
        "1"
    } else if d == 2 {
        "2"
    } else if d == 3 {
        "3"
    } else if d == 4 {
        "4"
    } else if d == 5 {
        "5"
    } else if d == 6 {
        "6"
    } else if d == 7 {
        "7"
    } else if d == 8 {
        "8"
    } else {
        "9"
    };
    assert(text@ =~= seq![digit(d as int)]);
    text
}

/// Adds the decimal digits of `n` to the end of a text.
fn append_digits(text: &mut String, n: u32)
    ensures
        final(text)@ == old(text)@ + digits(n as nat),
    decreases n,
{
    if n >= 10 {
        append_digits(text, n / 10);
    }
    text.append(digit_text(n % 10));
}

/// Adds an integer in decimal to the end of a text.
fn append_decimal(text: &mut String, n: i32)
    ensures
        final(text)@ == old(text)@ + decimal(n as int),
{
    if n < 0 {
        proof {
            reveal_strlit("-");
        }
        text.append("-");
        let magnitude: u32 = if n == i32::MIN {
            0x8000_0000
        } else {
            (-n) as u32
        };
        append_digits(text, magnitude);
        assert(text@ =~= old(text)@ + decimal(n as int));
    } else {
        append_digits(text, n as u32);
    }
}

/// The line that shows the player's lives: `Health: ` and the number.
pub fn health_text(state: &GameState) -> (text: String)
    ensures
        text@ == "Health: "@ + decimal(state.player_health as int),
{
    let mut text = String::from_str("Health: ");
    append_decimal(&mut text, state.player_health);
    text
}

/// The line that shows score and money: `Score: `, the score, ` | Money: `
/// and the money.
pub fn score_text(state: &GameState) -> (text: String)
    ensures
        text@ == "Score: "@ + decimal(state.score as int) + " | Money: "@ + decimal(
            state.money as int,
        ),
{
    let mut text = String::from_str("Score: ");
    append_decimal(&mut text, state.score);
    text.append(" | Money: ");
    append_decimal(&mut text, state.money);
    text
}

} // verus!
