//! Comments and what they are made of: a time, a kind, a size, a colour and a text.

use std::ops::Sub;
use std::time::Duration;
use vstd::prelude::*;
use vstd::std_specs::ops::SubSpecImpl;

verus! {

/// Whole milliseconds held by a [`Duration`], as `Duration::as_millis` reports them.
pub uninterp spec fn duration_millis(d: Duration) -> nat;

/// `Duration::as_millis`: the total number of whole milliseconds in the duration.
pub assume_specification[ Duration::as_millis ](d: &Duration) -> (ms: u128)
    ensures
        ms == duration_millis(*d),
;

/// `Duration::from_millis`: a duration of exactly `millis` milliseconds.
pub assume_specification[ Duration::from_millis ](millis: u64) -> (d: Duration)
    ensures
        duration_millis(d) == millis,
;

/// The character for a digit below sixteen: `0` to `9`, then `A` to `F`.
pub open spec fn digit_char(digit: nat) -> char {
    if digit < 10 {
        (48 + digit) as char
    } else {
        (55 + digit) as char
    }
}

/// A number written in decimal digits.
pub open spec fn decimal(number: nat) -> Seq<char>
    decreases number,
{
    if number < 10 {
        seq![digit_char(number)]
    } else {
        decimal(number / 10).push(digit_char(number % 10))
    }
}

/// A number in decimal, with zeros in front until it has `width` digits.
pub open spec fn zero_padded(number: nat, width: nat) -> Seq<char> {
    if decimal(number).len() >= width {
        decimal(number)
    } else {
        Seq::new((width - decimal(number).len()) as nat, |i: int| '0') + decimal(number)
    }
}

/// The two hexadecimal digits of a byte.
pub open spec fn hex_byte(byte: nat) -> Seq<char> {
    seq![digit_char(byte / 16), digit_char(byte % 16)]
}

/// `String::push`: appends one character to the text.
#[verifier::external_body]
fn push_char(text: &mut String, c: char)
    ensures
        final(text)@ == old(text)@.push(c),
{
    text.push(c)
}

fn digit(value: u8) -> (c: char)
    requires
        value < 16,
    ensures
        c == digit_char(value as nat),
{
    if value < 10 {
        (48 + value) as char
    } else {
        (55 + value) as char
    }
}

/// Appends `number` in decimal.
fn push_decimal(text: &mut String, number: u32)
    ensures
        final(text)@ == old(text)@ + decimal(number as nat),
        decimal(number as nat).len() >= 1,
    decreases number,
{
    if number >= 10 {
        push_decimal(text, number / 10);
    }
    push_char(text, digit((number % 10) as u8));
    assert(text@ =~= old(text)@ + decimal(number as nat));
}

/// Appends `number` in decimal, at least `width` digits wide.
fn push_zero_padded(text: &mut String, number: u32, width: u32)
    requires
        1 <= width <= 3,
    ensures
        final(text)@ == old(text)@ + zero_padded(number as nat, width as nat),
{
    let zeros: u32 = if number >= 100 || width == 1 {
        0
    } else if number >= 10 {
        width - 2
    } else {
        width - 1
    };
    proof {
        reveal_with_fuel(decimal, 3);
        if number >= 100 {
            assert(decimal(number as nat).len() >= 3);
        }
    }
    let mut i: u32 = 0;
    while i < zeros
        invariant
            i <= zeros,
            text@ == old(text)@ + Seq::new(i as nat, |k: int| '0'),
        decreases zeros - i,
    {
        push_char(text, '0');
        i += 1;
        assert(text@ =~= old(text)@ + Seq::new(i as nat, |k: int| '0'));
    }
    push_decimal(text, number);
    assert(text@ =~= old(text)@ + zero_padded(number as nat, width as nat));
}

/// A point on the video timeline, in milliseconds.
#[derive(PartialEq, Eq, Structural, PartialOrd, Ord, Clone, Copy, Debug)]
pub struct DanmakuTime(pub u32);

impl View for DanmakuTime {
    type V = nat;

    /// The number of milliseconds since the start of the timeline.
    open spec fn view(&self) -> nat {
        self.0 as nat
    }
}

impl DanmakuTime {
    /// Distance between two points of the timeline, whichever comes first.
    pub fn abs_diff(&self, other: &DanmakuTime) -> (d: Duration)
        ensures
            duration_millis(d) == if self@ >= other@ {
                self@ - other@
            } else {
                other@ - self@
            },
    {
        let diff: u32 = if self.0 >= other.0 {
            self.0 - other.0
        } else {
            other.0 - self.0
        };
        Duration::from_millis(diff as u64)
    }

    pub fn from_millis(millis: u32) -> (t: Self)
        ensures
            t@ == millis,
    {
        DanmakuTime(millis)
    }

    pub fn as_millis(&self) -> (ms: u32)
        ensures
            ms == self@,
    {
        self.0
    }

    /// Whole seconds since the start of the timeline.
    pub fn seconds(&self) -> (s: u32)
        ensures
            s == self@ / 1000,
    {
        self.0 / 1000
    }

    /// Milliseconds past the last whole second.
    pub fn millis(&self) -> (ms: u16)
        ensures
            ms == self@ % 1000,
    {
        (self.0 % 1000) as u16
    }

    /// The time as minutes, seconds and milliseconds: `mm:ss.mmm`.
    pub open spec fn text(millis: nat) -> Seq<char> {
        zero_padded(millis / 1000 / 60, 2) + seq![':'] + zero_padded(millis / 1000 % 60, 2) + seq![
            '.',
        ] + zero_padded(millis % 1000, 3)
    }

    /// Writes the time as `mm:ss.mmm`.
    pub fn format(&self) -> (text: String)
        ensures
            text@ == Self::text(self@),
    {
        let minutes: u32 = self.seconds() / 60;
        let seconds: u32 = self.seconds() % 60;
        let mut text = String::new();
        push_zero_padded(&mut text, minutes, 2);
        push_char(&mut text, ':');
        push_zero_padded(&mut text, seconds, 2);
        push_char(&mut text, '.');
        push_zero_padded(&mut text, self.0 % 1000, 3);
        assert(text@ =~= Self::text(self@));
        text
    }
}

impl SubSpecImpl for DanmakuTime {
    open spec fn obeys_sub_spec() -> bool {
        false
    }

    /// Subtraction is defined when the right operand is not the later one.
    open spec fn sub_req(self, rhs: DanmakuTime) -> bool {
        rhs@ <= self@
    }

    open spec fn sub_spec(self, rhs: DanmakuTime) -> Duration {
        arbitrary()
    }
}

impl Sub for DanmakuTime {
    type Output = Duration;

    /// Time elapsed from `rhs` to `self`.
    fn sub(self, rhs: DanmakuTime) -> (d: Duration)
        ensures
            duration_millis(d) == self@ - rhs@,
    {
        let milliseconds: u32 = self.0 - rhs.0;
        Duration::from_millis(milliseconds as u64)
    }
}

impl<'a> SubSpecImpl for &'a DanmakuTime {
    open spec fn obeys_sub_spec() -> bool {
        false
    }

    open spec fn sub_req(self, rhs: &'a DanmakuTime) -> bool {
        rhs@ <= self@
    }

    open spec fn sub_spec(self, rhs: &'a DanmakuTime) -> Duration {
        arbitrary()
    }
}

impl<'a> Sub for &'a DanmakuTime {
    type Output = Duration;

    /// Time elapsed from `rhs` to `self`.
    fn sub(self, rhs: &'a DanmakuTime) -> (d: Duration)
        ensures
            duration_millis(d) == self@ - rhs@,
    {
        let milliseconds: u32 = self.0 - rhs.0;
        Duration::from_millis(milliseconds as u64)
    }
}

/// An opaque RGB colour, eight bits per channel, packed as `0xRRGGBB`.
#[derive(PartialEq, Eq, Structural, Clone, Copy, Debug)]
pub struct DanmakuColor(u32);

impl View for DanmakuColor {
    type V = nat;

    /// The packed colour code.
    closed spec fn view(&self) -> nat {
        self.0 as nat
    }
}

impl DanmakuColor {
    #[verifier::type_invariant]
    spec fn fits_three_bytes(self) -> bool {
        self.0 < 0x100_0000
    }

    /// Red channel of a packed code.
    pub open spec fn red_of(code: nat) -> nat {
        code / 0x1_0000
    }

    /// Green channel of a packed code.
    pub open spec fn green_of(code: nat) -> nat {
        (code / 0x100) % 0x100
    }

    /// Blue channel of a packed code.
    pub open spec fn blue_of(code: nat) -> nat {
        code % 0x100
    }

    /// The colour with the given packed code.
    pub closed spec fn of_code(code: nat) -> DanmakuColor {
        DanmakuColor(code as u32)
    }

    /// A colour is its code.
    pub broadcast proof fn lemma_of_code(code: nat)
        requires
            code < 0x100_0000,
        ensures
            (#[trigger] Self::of_code(code))@ == code,
    {
    }

    /// Colours with the same code are the same colour.
    pub proof fn lemma_same_code(self, other: DanmakuColor)
        requires
            self@ == other@,
        ensures
            self == other,
    {
    }

    /// Takes a code that already fits 24 bits.
    pub fn from_code(rgb: u32) -> (c: Self)
        requires
            rgb < 0x100_0000,
        ensures
            c@ == rgb,
            c == Self::of_code(rgb as nat),
    {
        DanmakuColor(rgb)
    }

    /// Keeps the low 24 bits of any code.
    pub fn from_code_cast(rgb: u32) -> (c: Self)
        ensures
            c@ == rgb % 0x100_0000,
            c == Self::of_code((rgb % 0x100_0000) as nat),
    {
        assert(rgb & 0xFF_FFFF == rgb % 0x100_0000) by (bit_vector);
        DanmakuColor(rgb & 0xFF_FFFF)
    }

    pub fn from_rgb(r: u8, g: u8, b: u8) -> (c: Self)
        ensures
            c@ == r * 0x1_0000 + g * 0x100 + b,
            c == Self::of_code((r * 0x1_0000 + g * 0x100 + b) as nat),
    {
        let red: u32 = r as u32;
        let green: u32 = g as u32;
        let blue: u32 = b as u32;
        assert((red << 16 | green << 8 | blue) == red * 0x1_0000 + green * 0x100 + blue) by (bit_vector)
            requires
                red < 0x100,
                green < 0x100,
                blue < 0x100,
        ;
        DanmakuColor(red << 16 | green << 8 | blue)
    }

    pub fn r(&self) -> (v: u8)
        ensures
            v == Self::red_of(self@),
    {
        proof {
            use_type_invariant(self);
        }
        let code: u32 = self.0;
        assert(code >> 16 == code / 0x1_0000) by (bit_vector);
        (code >> 16) as u8
    }

    pub fn g(&self) -> (v: u8)
        ensures
            v == Self::green_of(self@),
    {
        let code: u32 = self.0;
        assert((code >> 8) & 0xFF == (code / 0x100) % 0x100) by (bit_vector);
        ((code >> 8) & 0xFF) as u8
    }

    pub fn b(&self) -> (v: u8)
        ensures
            v == Self::blue_of(self@),
    {
        let code: u32 = self.0;
        assert(code & 0xFF == code % 0x100) by (bit_vector);
        (code & 0xFF) as u8
    }

    pub fn code(&self) -> (rgb: u32)
        ensures
            rgb == self@,
            rgb < 0x100_0000,
            *self == Self::of_code(rgb as nat),
    {
        proof {
            use_type_invariant(self);
        }
        self.0
    }

    /// The colour as `#RRGGBB`.
    pub open spec fn text(code: nat) -> Seq<char> {
        seq!['#'] + hex_byte(Self::red_of(code)) + hex_byte(Self::green_of(code)) + hex_byte(
            Self::blue_of(code),
        )
    }

    /// Writes the colour as `#RRGGBB`.
    pub fn format(&self) -> (text: String)
        ensures
            text@ == Self::text(self@),
    {
        let mut text = String::new();
        push_char(&mut text, '#');
        let r: u8 = self.r();
        push_char(&mut text, digit(r / 16));
        push_char(&mut text, digit(r % 16));
        let g: u8 = self.g();
        push_char(&mut text, digit(g / 16));
        push_char(&mut text, digit(g % 16));
        let b: u8 = self.b();
        push_char(&mut text, digit(b / 16));
        push_char(&mut text, digit(b % 16));
        assert(text@ =~= Self::text(self@));
        text
    }
}

/// Where a comment asks to be shown.
#[derive(PartialEq, Eq, Structural, Clone, Copy, Debug)]
pub enum DanmakuType {
    Scroll,
    Top,
    Bottom,
    Unknown,
}

#[derive(PartialEq, Eq, Structural, Clone, Copy, Debug)]
pub enum DanmakuSize {
    Small,
    Regular,
    Large,
}

/// One timestamped comment.
#[derive(Clone, Debug)]
pub struct Danmaku {
    pub time: DanmakuTime,
    pub kind: DanmakuType,
    pub size: DanmakuSize,
    pub color: DanmakuColor,
    pub content: String,
}

} // verus!
