//! Graphics errors.

use vstd::prelude::*;
use vstd::string::*;

verus! {

/// The graphics errors that arise without a display.
#[derive(Debug, Clone, PartialEq, Eq)]
pub enum GfxError {
    TextureNotFound(String),
    SamplerNotFound(u16),
    BufferSlice,
    NoActiveCamera,
}

/// The character of one decimal digit.
pub open spec fn digit(d: nat) -> char {
    if d == 0 {
        '0'
    } else if d == 1 {
        '1'
    } else if d == 2 {
        '2'
    } else if d == 3 {
        '3'
    } else if d == 4 {
        '4'
    } else if d == 5 {
        '5'
    } else if d == 6 {
        '6'
    } else if d == 7 {
        '7'
    } else if d == 8 {
        '8'
    } else {
        '9'
    }
}

/// A number in decimal, without leading zeros.
pub open spec fn decimal(n: nat) -> Seq<char>
    decreases n,
{
    if n < 10 {
        seq![digit(n)]
    } else {
        decimal(n / 10).push(digit(n % 10))
    }
}

fn digit_text(d: u16) -> (text: &'static str)
    requires
        d < 10,
    ensures
        text@ == seq![digit(d as nat)],
{
    proof {
        reveal_strlit("0");
        reveal_strlit("1");
        reveal_strlit("2");
        reveal_strlit("3");
        reveal_strlit("4");
        reveal_strlit("5");
        reveal_strlit("6");
        reveal_strlit("7");
        reveal_strlit("8");
        reveal_strlit("9");
    }
    let text = if d == 0 {
        "0"
    } else if d == 1 {
        "1"
    } else if d == 2 {
        "2"
    } else if d == 3 {
        "3"
    } else if d == 4 {
        "4"
    } else if d == 5 {
        "5"
    } else if d == 6 {
        "6"
    } else if d == 7 {
        "7"
    } else if d == 8 {
        "8"
    } else {
        "9"
    };
    assert(text@ =~= seq![digit(d as nat)]);
    text
}

/// A number in decimal.
pub fn decimal_text(n: u16) -> (text: String)
    ensures
        text@ == decimal(n as nat),
    decreases n,
{
    if n < 10 {
        String::from_str(digit_text(n))
    } else {
        let mut text = decimal_text(n / 10);
        text.append(digit_text(n % 10));
        assert(text@ =~= decimal(n as nat));
        text
    }
}

impl GfxError {
    /// The text of the error.
    pub open spec fn text(self) -> Seq<char> {
        match self {
            GfxError::TextureNotFound(texture) => "Texture "@ + texture@ + " was not found"@,
            GfxError::SamplerNotFound(id) => "Sampler "@ + decimal(id as nat) + " was not found"@,
            GfxError::BufferSlice => "Failed to slice buffer"@,
            GfxError::NoActiveCamera => "No active camera to render with"@,
        }
    }

    /// The text of the error.
    pub fn message(&self) -> (text: String)
        ensures
            text@ == self.text(),
    {
        match self {
            GfxError::TextureNotFound(texture) => {
                let mut text = String::from_str("Texture ");
                text.append(texture.as_str());
                text.append(" was not found");
                text
            },
            GfxError::SamplerNotFound(id) => {
                let mut text = String::from_str("Sampler ");
                let number = decimal_text(*id);
                text.append(number.as_str());
                text.append(" was not found");
                text
            },
            GfxError::BufferSlice => String::from_str("Failed to slice buffer"),
            GfxError::NoActiveCamera => String::from_str("No active camera to render with"),
        }
    }
}

} // verus!
