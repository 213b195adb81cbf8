use vstd::prelude::*;

verus! {

/// The character that shows digit value `d` (uppercase for ten to fifteen).
pub open spec fn digit_char(d: nat) -> char {
    if d == 0 { '0' }
    else if d == 1 { '1' }
    else if d == 2 { '2' }
    else if d == 3 { '3' }
    else if d == 4 { '4' }
    else if d == 5 { '5' }
    else if d == 6 { '6' }
    else if d == 7 { '7' }
    else if d == 8 { '8' }
    else if d == 9 { '9' }
    else if d == 10 { 'A' }
    else if d == 11 { 'B' }
    else if d == 12 { 'C' }
    else if d == 13 { 'D' }
    else if d == 14 { 'E' }
    else { 'F' }
}

/// The value of a digit character; 16 for a character that is no digit.
pub open spec fn char_value(c: char) -> nat {
    if c == '0' { 0 }
    else if c == '1' { 1 }
    else if c == '2' { 2 }
    else if c == '3' { 3 }
    else if c == '4' { 4 }
    else if c == '5' { 5 }
    else if c == '6' { 6 }
    else if c == '7' { 7 }
    else if c == '8' { 8 }
    else if c == '9' { 9 }
    else if c == 'A' { 10 }
    else if c == 'B' { 11 }
    else if c == 'C' { 12 }
    else if c == 'D' { 13 }
    else if c == 'E' { 14 }
    else if c == 'F' { 15 }
    else { 16 }
}

/// `c` belongs to the alphabet of the numeral system with this radix.
pub open spec fn is_digit_of(c: char, radix: nat) -> bool {
    char_value(c) < radix
}

pub proof fn lemma_digit_char_value(d: nat)
    requires
        d < 16,
    ensures
        char_value(digit_char(d)) == d,
{
}

pub proof fn lemma_char_value_digit(c: char)
    requires
        char_value(c) < 16,
    ensures
        digit_char(char_value(c)) == c,
{
}

/// Numeral system in which the entry is typed and shown.
#[derive(Copy, Clone, Debug, PartialEq, Eq, Structural)]
pub enum Base {
    Binary,
    Octal,
    Decimal,
    Hexa,
}

impl Base {
    pub open spec fn spec_radix(self) -> nat {
        match self {
            Base::Binary => 2,
            Base::Octal => 8,
            Base::Decimal => 10,
            Base::Hexa => 16,
        }
    }

    pub open spec fn spec_name(self) -> Seq<char> {
        match self {
            Base::Binary => "Binary"@,
            Base::Octal => "Octal"@,
            Base::Decimal => "Decimal"@,
            Base::Hexa => "Hexa"@,
        }
    }

    /// The number of digits of this numeral system.
    pub fn radix(&self) -> (r: u8)
        ensures
            r as nat == self.spec_radix(),
    {
        match self {
            Base::Binary => 2,
            Base::Octal => 8,
            Base::Decimal => 10,
            Base::Hexa => 16,
        }
    }

    /// The name under which this base is shown.
    pub fn name(&self) -> (r: &'static str)
        ensures
            r@ == self.spec_name(),
    {
        match self {
            Base::Binary => "Binary",
            Base::Octal => "Octal",
            Base::Decimal => "Decimal",
            Base::Hexa => "Hexa",
        }
    }
}

impl Default for Base {
    fn default() -> (r: Base)
        ensures
            r == Base::Decimal,
    {
        Base::Decimal
    }
}

/// A digit key: the sixteen digits `0` to `F`.
#[derive(Copy, Clone, Debug, PartialEq, Eq, Structural)]
pub enum WriteValue {
    Digit0,
    Digit1,
    Digit2,
    Digit3,
    Digit4,
    Digit5,
    Digit6,
    Digit7,
    Digit8,
    Digit9,
    DigitA,
    DigitB,
    DigitC,
    DigitD,
    DigitE,
    DigitF,
}

impl WriteValue {
    /// The numeric value of the digit, 0 to 15.
    pub open spec fn spec_value(self) -> nat {
        match self {
            WriteValue::Digit0 => 0,
            WriteValue::Digit1 => 1,
            WriteValue::Digit2 => 2,
            WriteValue::Digit3 => 3,
            WriteValue::Digit4 => 4,
            WriteValue::Digit5 => 5,
            WriteValue::Digit6 => 6,
            WriteValue::Digit7 => 7,
            WriteValue::Digit8 => 8,
            WriteValue::Digit9 => 9,
            WriteValue::DigitA => 10,
            WriteValue::DigitB => 11,
            WriteValue::DigitC => 12,
            WriteValue::DigitD => 13,
            WriteValue::DigitE => 14,
            WriteValue::DigitF => 15,
        }
    }

    /// The canonical character of the digit.
    pub open spec fn spec_char(self) -> char {
        digit_char(self.spec_value())
    }

    pub open spec fn spec_allowed_in(self, b: Base) -> bool {
        self.spec_value() < b.spec_radix()
    }

    /// Returns the character representation of the digit.
    pub fn into_char(&self) -> (r: char)
        ensures
            r == self.spec_char(),
    {
        match self {
            WriteValue::Digit0 => '0',
            WriteValue::Digit1 => '1',
            WriteValue::Digit2 => '2',
            WriteValue::Digit3 => '3',
            WriteValue::Digit4 => '4',
            WriteValue::Digit5 => '5',
            WriteValue::Digit6 => '6',
            WriteValue::Digit7 => '7',
            WriteValue::Digit8 => '8',
            WriteValue::Digit9 => '9',
            WriteValue::DigitA => 'A',
            WriteValue::DigitB => 'B',
            WriteValue::DigitC => 'C',
            WriteValue::DigitD => 'D',
            WriteValue::DigitE => 'E',
            WriteValue::DigitF => 'F',
        }
    }

    /// The numeric value of the digit, 0 to 15.
    pub fn value(&self) -> (r: u8)
        ensures
            r as nat == self.spec_value(),
    {
        match self {
            WriteValue::Digit0 => 0,
            WriteValue::Digit1 => 1,
            WriteValue::Digit2 => 2,
            WriteValue::Digit3 => 3,
            WriteValue::Digit4 => 4,
            WriteValue::Digit5 => 5,
            WriteValue::Digit6 => 6,
            WriteValue::Digit7 => 7,
            WriteValue::Digit8 => 8,
            WriteValue::Digit9 => 9,
            WriteValue::DigitA => 10,
            WriteValue::DigitB => 11,
            WriteValue::DigitC => 12,
            WriteValue::DigitD => 13,
            WriteValue::DigitE => 14,
            WriteValue::DigitF => 15,
        }
    }

    /// Checks whether the digit belongs to the alphabet of base `b`.
    pub fn is_allowed_for_base(&self, b: Base) -> (r: bool)
        ensures
            r == self.spec_allowed_in(b),
    {
        self.value() < b.radix()
    }
}

} // verus!
