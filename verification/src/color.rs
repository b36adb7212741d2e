//! Colours with three eight-bit channels, their contrast class, and the two
//! blends that push a colour toward white or toward black.

use crate::text::{decimal_text, format_unsigned};
use vstd::prelude::*;
use vstd::string::StringExecFns;

verus! {

/// Whether a colour reads as bright (`Dark`) or as dim (`Light`).
#[derive(Debug, Clone, Copy, PartialEq, Eq, Structural)]
pub enum Contrast {
    Dark,
    Light,
}

/// A colour: red, green and blue, each from 0 to 255.
#[derive(Debug, Clone, Copy, PartialEq, Eq, Structural)]
pub struct RGB {
    pub red: u8,
    pub green: u8,
    pub blue: u8,
}

/// How far a blend goes: a fraction between nothing (0) and all the way (1),
/// kept as a numerator over a positive denominator.
#[derive(Debug, Clone, Copy)]
pub struct Amount {
    numerator: u32,
    denominator: u32,
}

/// The luminance of a colour on the YIQ scale, from 0 to 255, rounded down.
pub open spec fn luminance(c: RGB) -> int {
    (299 * c.red + 587 * c.green + 114 * c.blue) / 1000
}

/// The luminance from which on a colour counts as bright.
pub const BRIGHT_FROM: u32 = 128;

/// The contrast class of a colour.
pub open spec fn contrast_of(c: RGB) -> Contrast {
    if luminance(c) >= BRIGHT_FROM {
        Contrast::Dark
    } else {
        Contrast::Light
    }
}

/// What a full channel (255) times the fraction `num / den` comes to, rounded
/// to the nearest whole number, halves upward.
pub open spec fn lift(num: nat, den: nat) -> int {
    ((510 * (num as int) + den) / (den as int)) / 2
}

/// A channel pushed toward white: raised by `lift`, and held at 255.
pub open spec fn lightened(channel: u8, num: nat, den: nat) -> int {
    if channel + lift(num, den) > 255 {
        255
    } else {
        channel + lift(num, den)
    }
}

/// A channel pushed toward black: what is left of it after the fraction
/// `num / den` is taken away, rounded down.
pub open spec fn darkened(channel: u8, num: nat, den: nat) -> int {
    (channel * (den - num)) / (den as int)
}

impl Amount {
    #[verifier::type_invariant]
    spec fn well_formed(self) -> bool {
        self.is_fraction()
    }

    /// The numerator of the fraction.
    pub closed spec fn num(self) -> nat {
        self.numerator as nat
    }

    /// The denominator of the fraction.
    pub closed spec fn den(self) -> nat {
        self.denominator as nat
    }

    /// What every amount in use satisfies: it lies between 0 and 1.
    pub open spec fn is_fraction(self) -> bool {
        0 < self.den() && self.num() <= self.den()
    }

    /// The amount `numerator / denominator`, if that lies between 0 and 1.
    pub fn new(numerator: u32, denominator: u32) -> (amount: Option<Amount>)
        ensures
            amount is Some <==> 0 < denominator && numerator <= denominator,
            amount matches Some(a) ==> a.num() == numerator && a.den() == denominator
                && a.is_fraction(),
    {
        if denominator == 0 || numerator > denominator {
            None
        } else {
            Some(Amount { numerator, denominator })
        }
    }

    /// 255 times this amount, rounded to the nearest whole number.
    fn lift(self) -> (delta: u8)
        ensures
            delta == lift(self.num(), self.den()),
            self.is_fraction(),
    {
        proof {
            use_type_invariant(&self);
        }
        let num: u64 = self.numerator as u64;
        let den: u64 = self.denominator as u64;
        let delta: u64 = ((510 * num + den) / den) / 2;
        assert(delta <= 255) by (nonlinear_arith)
            requires
                delta == ((510 * num + den) / (den as int)) / 2,
                0 < den,
                num <= den,
        ;
        delta as u8
    }

    /// What is left of `channel` after this amount of it is taken away.
    fn keep(self, channel: u8) -> (kept: u8)
        ensures
            kept == darkened(channel, self.num(), self.den()),
            kept <= channel,
            self.is_fraction(),
    {
        proof {
            use_type_invariant(&self);
        }
        let rest: u64 = (self.denominator - self.numerator) as u64;
        let den: u64 = self.denominator as u64;
        let wide: u64 = channel as u64;
        assert(wide * rest <= wide * den && wide * den <= 255 * 0xffff_ffff) by (nonlinear_arith)
            requires
                rest <= den,
                den <= 0xffff_ffff,
                wide <= 255,
        ;
        let kept: u64 = (wide * rest) / den;
        assert(kept <= wide) by (nonlinear_arith)
            requires
                kept == (wide * rest) as int / den as int,
                wide * rest <= wide * den,
                0 < den,
        ;
        kept as u8
    }
}

impl RGB {
    /// Black: every channel 0.
    pub fn black() -> (c: RGB)
        ensures
            c == (RGB { red: 0, green: 0, blue: 0 }),
    {
        RGB { red: 0, green: 0, blue: 0 }
    }

    /// White: every channel 255.
    pub fn white() -> (c: RGB)
        ensures
            c == (RGB { red: 255, green: 255, blue: 255 }),
    {
        RGB { red: 255, green: 255, blue: 255 }
    }

    /// `Dark` exactly when the luminance is at least 128.
    pub fn contrast(self) -> (c: Contrast)
        ensures
            c == contrast_of(self),
            c == Contrast::Dark <==> (299 * self.red + 587 * self.green + 114 * self.blue) / 1000
                >= 128,
    {
        let yiq: u32 = (self.red as u32 * 299 + self.green as u32 * 587 + self.blue as u32 * 114)
            / 1000;
        if yiq >= BRIGHT_FROM {
            Contrast::Dark
        } else {
            Contrast::Light
        }
    }

    /// The colour with every channel pushed toward white by `n`.
    pub open spec fn lightened_by(self, n: Amount) -> RGB {
        RGB {
            red: lightened(self.red, n.num(), n.den()) as u8,
            green: lightened(self.green, n.num(), n.den()) as u8,
            blue: lightened(self.blue, n.num(), n.den()) as u8,
        }
    }

    /// The colour with every channel pushed toward black by `n`.
    pub open spec fn darkened_by(self, n: Amount) -> RGB {
        RGB {
            red: darkened(self.red, n.num(), n.den()) as u8,
            green: darkened(self.green, n.num(), n.den()) as u8,
            blue: darkened(self.blue, n.num(), n.den()) as u8,
        }
    }

    /// Adds 255 times `n`, rounded, to every channel; a channel that would
    /// pass 255 stays at 255.
    pub fn lighten(self, n: Amount) -> (c: RGB)
        ensures
            c == self.lightened_by(n),
            c.red == lightened(self.red, n.num(), n.den()),
            c.green == lightened(self.green, n.num(), n.den()),
            c.blue == lightened(self.blue, n.num(), n.den()),
            self.red <= c.red && self.green <= c.green && self.blue <= c.blue,
    {
        let delta: u8 = n.lift();
        RGB {
            red: self.red.saturating_add(delta),
            green: self.green.saturating_add(delta),
            blue: self.blue.saturating_add(delta),
        }
    }

    /// Scales every channel by one minus `n`, rounding down.
    pub fn darken(self, n: Amount) -> (c: RGB)
        ensures
            c == self.darkened_by(n),
            c.red == darkened(self.red, n.num(), n.den()),
            c.green == darkened(self.green, n.num(), n.den()),
            c.blue == darkened(self.blue, n.num(), n.den()),
            c.red <= self.red && c.green <= self.green && c.blue <= self.blue,
    {
        RGB { red: n.keep(self.red), green: n.keep(self.green), blue: n.keep(self.blue) }
    }
}

/// The colour of a covered pixel: the background pushed toward white where
/// its contrast is `Dark`, toward black where it is `Light`, as far as the
/// pixel is covered.
pub open spec fn blended(background: RGB, contrast: Contrast, amount: Amount) -> RGB {
    match contrast {
        Contrast::Dark => background.lightened_by(amount),
        Contrast::Light => background.darkened_by(amount),
    }
}

impl RGB {
    /// The colour of a pixel that a glyph covers by `amount`, on this
    /// background.
    pub fn blend(self, contrast: Contrast, amount: Amount) -> (c: RGB)
        ensures
            c == blended(self, contrast, amount),
    {
        match contrast {
            Contrast::Dark => self.lighten(amount),
            Contrast::Light => self.darken(amount),
        }
    }
}

/// The value of a hexadecimal digit, in either case; `None` for any other
/// character.
pub open spec fn hex_digit(c: char) -> Option<nat> {
    if '0' <= c <= '9' {
        Some((c as u32 - '0' as u32) as nat)
    } else if 'a' <= c <= 'f' {
        Some((c as u32 - 'a' as u32 + 10) as nat)
    } else if 'A' <= c <= 'F' {
        Some((c as u32 - 'A' as u32 + 10) as nat)
    } else {
        None
    }
}

/// Whether every character of `s` is a hexadecimal digit.
pub open spec fn all_hex(s: Seq<char>) -> bool {
    forall|i: int| 0 <= i < s.len() ==> (#[trigger] hex_digit(s[i])) is Some
}

/// The number that the digits of `s` spell in base 16, the first digit
/// counting most.
pub open spec fn hex_number(s: Seq<char>) -> nat
    decreases s.len(),
{
    if s.len() == 0 {
        0
    } else {
        16 * hex_number(s.drop_last()) + hex_digit(s.last()).unwrap()
    }
}

/// The number of characters in a colour's text form.
pub const COLOR_DIGITS: usize = 6;

/// The largest number that a colour's text form may spell.
pub const COLOR_NUMBER_MAX: u32 = 16777216;

/// Whether `s` is the text form of a colour: six hexadecimal digits.
pub open spec fn is_color_text(s: Seq<char>) -> bool {
    s.len() == COLOR_DIGITS && all_hex(s) && hex_number(s) <= COLOR_NUMBER_MAX
}

/// The colour whose channels are the three bytes of `n`: red the third
/// lowest, green the second, blue the lowest.
pub open spec fn color_of_number(n: nat) -> RGB {
    RGB {
        red: ((n / 65536) % 256) as u8,
        green: ((n / 256) % 256) as u8,
        blue: (n % 256) as u8,
    }
}

/// 16 to the power `k`.
pub open spec fn sixteen_to(k: nat) -> nat
    decreases k,
{
    if k == 0 {
        1
    } else {
        16 * sixteen_to((k - 1) as nat)
    }
}

/// A number of `k` hexadecimal digits is below 16 to the `k`. For six digits
/// that is 16777216, so the limit on a colour's number never turns six
/// hexadecimal digits away.
pub proof fn lemma_hex_number_bound(s: Seq<char>)
    requires
        all_hex(s),
    ensures
        hex_number(s) < sixteen_to(s.len()),
        s.len() == COLOR_DIGITS ==> hex_number(s) < COLOR_NUMBER_MAX,
    decreases s.len(),
{
    if s.len() > 0 {
        let front = s.drop_last();
        assert forall|i: int| 0 <= i < front.len() implies (#[trigger] hex_digit(front[i])) is Some by {
            assert(front[i] == s[i]);
        }
        lemma_hex_number_bound(front);
        assert(hex_digit(s.last()) is Some);
        assert(hex_digit(s.last()).unwrap() < 16);
    }
    if s.len() == COLOR_DIGITS {
        reveal_with_fuel(sixteen_to, 7);
        assert(sixteen_to(6) == 16777216);
    }
}

/// The value of the byte `b` as a hexadecimal digit: `0` to `9` are the bytes
/// 48 to 57, `a` to `f` are 97 to 102, `A` to `F` are 65 to 70.
fn hex_digit_of_byte(b: u8) -> (d: Option<u32>)
    ensures
        match hex_digit(b as char) {
            Some(v) => d == Some(v as u32),
            None => d is None,
        },
{
    if 48 <= b && b <= 57 {
        Some((b - 48) as u32)
    } else if 97 <= b && b <= 102 {
        Some((b - 97 + 10) as u32)
    } else if 65 <= b && b <= 70 {
        Some((b - 65 + 10) as u32)
    } else {
        None
    }
}

impl RGB {
    /// Reads a colour from its text form: six hexadecimal digits, in either
    /// case, two for each of red, green and blue. Any other text comes back
    /// as the error.
    pub fn from_form_value(form_value: &str) -> (parsed: Result<RGB, &str>)
        ensures
            parsed is Ok <==> is_color_text(form_value@),
            parsed matches Ok(c) ==> c == color_of_number(hex_number(form_value@)),
            parsed matches Err(e) ==> e@ == form_value@,
    {
        if !form_value.is_ascii() {
            proof {
                if all_hex(form_value@) {
                    let i = choose|i: int|
                        0 <= i < form_value@.len() && !('\0' <= #[trigger] form_value@[i]
                            <= '\u{7f}');
                    assert(hex_digit(form_value@[i]) is Some);
                }
            }
            return Err(form_value);
        }
        let bytes = form_value.as_bytes();
        proof {
            vstd::string::is_ascii_spec_bytes(form_value);
        }
        assert(bytes@.len() == form_value@.len());
        if bytes.len() != COLOR_DIGITS {
            return Err(form_value);
        }
        let mut n: u32 = 0;
        let mut i: usize = 0;
        while i < COLOR_DIGITS
            invariant
                i <= COLOR_DIGITS,
                bytes@.len() == COLOR_DIGITS,
                form_value@.len() == COLOR_DIGITS,
                forall|k: int| 0 <= k < 6 ==> bytes@[k] == (#[trigger] form_value@[k]) as u8,
                vstd::utf8::is_ascii_chars(form_value@),
                all_hex(form_value@.take(i as int)),
                n == hex_number(form_value@.take(i as int)),
            decreases COLOR_DIGITS - i,
        {
            let b: u8 = bytes[i];
            let ghost c = form_value@[i as int];
            assert(b as char == c) by {
                assert('\0' <= c <= '\u{7f}');
                assert(b == c as u8);
            }
            let ghost before = form_value@.take(i as int);
            let ghost after = form_value@.take(i + 1);
            assert(after.drop_last() == before);
            assert(after.last() == c);
            match hex_digit_of_byte(b) {
                None => {
                    assert(!all_hex(form_value@)) by {
                        assert(hex_digit(form_value@[i as int]) is None);
                    }
                    return Err(form_value);
                },
                Some(d) => {
                    proof {
                        lemma_hex_number_bound(before);
                        reveal_with_fuel(sixteen_to, 6);
                        assert(sixteen_to(before.len()) <= 1048576);
                        assert forall|k: int| 0 <= k < after.len() implies (#[trigger] hex_digit(
                            after[k],
                        )) is Some by {
                            if k < i {
                                assert(after[k] == before[k]);
                            }
                        }
                    }
                    n = n * 16 + d;
                },
            }
            i = i + 1;
        }
        assert(form_value@.take(6) == form_value@);
        if n <= COLOR_NUMBER_MAX {
            let red: u8 = (n >> 16 & 255) as u8;
            let green: u8 = (n >> 8 & 255) as u8;
            let blue: u8 = (n & 255) as u8;
            assert(n >> 16 & 255 == (n / 65536) % 256 && n >> 8 & 255 == (n / 256) % 256 && n
                & 255 == n % 256) by (bit_vector);
            Ok(RGB { red, green, blue })
        } else {
            Err(form_value)
        }
    }
}

/// The text of a colour for a log line: `rgb(`, the three channels in
/// decimal with one space between them, and `)`.
pub open spec fn rgb_text(c: RGB) -> Seq<char> {
    "rgb("@ + decimal_text(c.red as nat) + " "@ + decimal_text(c.green as nat) + " "@
        + decimal_text(c.blue as nat) + ")"@
}

impl RGB {
    /// Writes the colour as `rgb(R G B)`.
    pub fn to_string(&self) -> (text: String)
        ensures
            text@ == rgb_text(*self),
    {
        let text: String = String::from_str("rgb(");
        let text: String = text.concat(format_unsigned(self.red as u64).as_str());
        let text: String = text.concat(" ");
        let text: String = text.concat(format_unsigned(self.green as u64).as_str());
        let text: String = text.concat(" ");
        let text: String = text.concat(format_unsigned(self.blue as u64).as_str());
        text.concat(")")
    }
}

/// A blend by nothing changes nothing: lightened or darkened by zero, a
/// colour is what it was.
pub proof fn lemma_blend_by_nothing(c: RGB, n: Amount)
    requires
        n.is_fraction(),
        n.num() == 0,
    ensures
        c.lightened_by(n) == c,
        c.darkened_by(n) == c,
{
    let den = n.den();
    assert(lift(0, den) == 0) by (nonlinear_arith)
        requires
            0 < den,
    ;
    lemma_darkened_bounds(c.red, 0, den);
    lemma_darkened_bounds(c.green, 0, den);
    lemma_darkened_bounds(c.blue, 0, den);
}

/// What is left of a channel is never negative and never more than the
/// channel, and all of it where nothing is taken away.
pub proof fn lemma_darkened_bounds(channel: u8, num: nat, den: nat)
    requires
        0 < den,
        num <= den,
    ensures
        0 <= darkened(channel, num, den) <= channel,
        num == 0 ==> darkened(channel, num, den) == channel,
{
    assert(0 <= (channel * (den - num)) / (den as int) <= channel) by (nonlinear_arith)
        requires
            0 < den,
            num <= den,
            0 <= channel,
    ;
    if num == 0 {
        assert((channel * (den - 0)) / (den as int) == channel) by (nonlinear_arith)
            requires
                0 < den,
        ;
    }
}

/// Lightening saturates: whatever the channel and the amount, the lightened
/// channel is no less than the channel and no more than 255, so that it is a
/// channel again; and by the whole amount every channel is 255.
pub proof fn lemma_lighten_saturates(c: RGB, n: Amount)
    requires
        n.is_fraction(),
    ensures
        c.red <= lightened(c.red, n.num(), n.den()) <= 255,
        c.green <= lightened(c.green, n.num(), n.den()) <= 255,
        c.blue <= lightened(c.blue, n.num(), n.den()) <= 255,
        c.red <= c.lightened_by(n).red,
        c.green <= c.lightened_by(n).green,
        c.blue <= c.lightened_by(n).blue,
        n.num() == n.den() ==> c.lightened_by(n) == (RGB { red: 255, green: 255, blue: 255 }),
{
    let num = n.num();
    let den = n.den();
    assert(0 <= lift(num, den) <= 255) by (nonlinear_arith)
        requires
            0 < den,
            num <= den,
    ;
    if num == den {
        assert(lift(num, den) == 255) by (nonlinear_arith)
            requires
                0 < den,
                num == den,
        ;
    }
}

/// Darkening never raises a channel: the darkened channel lies between 0
/// and the channel.
pub proof fn lemma_darken_never_raises(c: RGB, n: Amount)
    requires
        n.is_fraction(),
    ensures
        0 <= darkened(c.red, n.num(), n.den()) <= c.red,
        0 <= darkened(c.green, n.num(), n.den()) <= c.green,
        0 <= darkened(c.blue, n.num(), n.den()) <= c.blue,
        c.darkened_by(n).red <= c.red,
        c.darkened_by(n).green <= c.green,
        c.darkened_by(n).blue <= c.blue,
{
    let num = n.num();
    let den = n.den();
    lemma_darkened_bounds(c.red, num, den);
    lemma_darkened_bounds(c.green, num, den);
    lemma_darkened_bounds(c.blue, num, den);
}

} // verus!
