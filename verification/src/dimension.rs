//! Layout lengths: a number with a unit, or `auto`.
//!
//! A number is kept as the literal that the markup wrote. The literals are those
//! of a 32-bit float, and the grammar here says which they are; what a literal is
//! worth is left to whoever lays out.

use crate::error::{ErrorModel, HtmlUiError};
use crate::text::{equals, push_chars, string_of, strip_suffix, without_suffix};
use vstd::prelude::*;
use vstd::slice::slice_subrange;
use vstd::string::StringExecFns;

verus! {

/// An ASCII digit.
pub open spec fn is_digit(c: char) -> bool {
    0x30 <= c as u32 <= 0x39
}

/// A sign: `+` or `-`.
pub open spec fn is_sign(c: char) -> bool {
    c == '+' || c == '-'
}

/// Whether `c` is the lower-case letter `l` or its upper-case form.
pub open spec fn is_letter(c: char, l: char) -> bool {
    c == l || (0x61 <= l as u32 <= 0x7A && c as u32 + 0x20 == l as u32)
}

/// Whether `s` spells the lower-case word `word`, in any mix of cases.
pub open spec fn spells(s: Seq<char>, word: Seq<char>) -> bool {
    s.len() == word.len() && forall|k: int| 0 <= k < s.len() ==> is_letter(s[k], word[k])
}

/// The first index at or after `from` that holds no digit; the length of `s` if
/// there is none.
pub open spec fn digits_end(s: Seq<char>, from: int) -> int
    decreases s.len() - from,
{
    if 0 <= from < s.len() && is_digit(s[from]) {
        digits_end(s, from + 1)
    } else {
        from
    }
}

/// `s` without a sign at its front.
pub open spec fn unsigned(s: Seq<char>) -> Seq<char> {
    if s.len() > 0 && is_sign(s[0]) {
        s.drop_first()
    } else {
        s
    }
}

/// An exponent: `e` or `E`, an optional sign, at least one digit and nothing else.
pub open spec fn is_exponent(s: Seq<char>) -> bool {
    &&& s.len() > 0
    &&& is_letter(s[0], 'e')
    &&& unsigned(s.drop_first()).len() > 0
    &&& digits_end(unsigned(s.drop_first()), 0) == unsigned(s.drop_first()).len()
}

/// A decimal number: digits with at most one point among them, at least one digit
/// in all, and then an exponent or nothing.
pub open spec fn is_decimal(s: Seq<char>) -> bool {
    let whole = digits_end(s, 0);
    let pointed = whole < s.len() && s[whole] == '.';
    let frac_start = if pointed {
        whole + 1
    } else {
        whole
    };
    let frac_end = digits_end(s, frac_start);
    &&& whole + (frac_end - frac_start) > 0
    &&& (frac_end == s.len() || is_exponent(s.skip(frac_end)))
}

/// The literals that stand for a 32-bit float: an optional sign, then `inf`,
/// `infinity` or `nan` in any mix of cases, or a decimal number.
pub open spec fn is_float_literal(s: Seq<char>) -> bool {
    let body = unsigned(s);
    ||| spells(body, "inf"@)
    ||| spells(body, "infinity"@)
    ||| spells(body, "nan"@)
    ||| is_decimal(body)
}

/// Whether `c` is an ASCII digit.
fn digit(c: char) -> (b: bool)
    ensures
        b == is_digit(c),
{
    let u: u32 = c as u32;
    0x30 <= u && u <= 0x39
}

/// Whether `c` is a sign.
fn sign(c: char) -> (b: bool)
    ensures
        b == is_sign(c),
{
    c == '+' || c == '-'
}

/// Whether `c` is the lower-case letter `l` or its upper-case form.
fn letter(c: char, l: char) -> (b: bool)
    ensures
        b == is_letter(c, l),
{
    let cu: u32 = c as u32;
    let lu: u32 = l as u32;
    c == l || (0x61 <= lu && lu <= 0x7A && cu < 0x7A && cu + 0x20 == lu)
}

/// Whether `s` spells the lower-case word `word`, in any mix of cases.
fn spells_word(s: &[char], word: &str) -> (b: bool)
    ensures
        b == spells(s@, word@),
{
    let mut k: usize = 0;
    for l in it: word.chars()
        invariant
            it.seq() == word@,
            k == it.index(),
            k <= s.len(),
            forall|j: int| 0 <= j < k ==> is_letter(s@[j], word@[j]),
    {
        if k >= s.len() || !letter(s[k], l) {
            return false;
        }
        k += 1;
    }
    k == s.len()
}

/// The first index at or after `from` that holds no digit.
fn skip_digits(s: &[char], from: usize) -> (end: usize)
    requires
        from <= s.len(),
    ensures
        end == digits_end(s@, from as int),
        from <= end <= s.len(),
{
    let mut i = from;
    while i < s.len() && digit(s[i])
        invariant
            from <= i <= s.len(),
            digits_end(s@, i as int) == digits_end(s@, from as int),
        decreases s.len() - i,
    {
        i += 1;
    }
    i
}

/// `s` without a sign at its front.
fn drop_sign<'a>(s: &'a [char]) -> (r: &'a [char])
    ensures
        r@ == unsigned(s@),
{
    if s.len() > 0 && sign(s[0]) {
        slice_subrange(s, 1, s.len())
    } else {
        s
    }
}

/// Whether `s` is an exponent.
fn exponent(s: &[char]) -> (b: bool)
    ensures
        b == is_exponent(s@),
{
    if s.len() == 0 || !letter(s[0], 'e') {
        return false;
    }
    let digits = drop_sign(slice_subrange(s, 1, s.len()));
    digits.len() > 0 && skip_digits(digits, 0) == digits.len()
}

/// Whether `s` is a decimal number.
fn decimal(s: &[char]) -> (b: bool)
    ensures
        b == is_decimal(s@),
{
    let whole = skip_digits(s, 0);
    let pointed = whole < s.len() && s[whole] == '.';
    let frac_start = if pointed {
        whole + 1
    } else {
        whole
    };
    let frac_end = skip_digits(s, frac_start);
    if whole + (frac_end - frac_start) == 0 {
        return false;
    }
    frac_end == s.len() || exponent(slice_subrange(s, frac_end, s.len()))
}

/// Whether `s` is a literal of a 32-bit float.
pub fn float_literal(s: &[char]) -> (b: bool)
    ensures
        b == is_float_literal(s@),
{
    let body = drop_sign(s);
    spells_word(body, "inf") || spells_word(body, "infinity") || spells_word(body, "nan")
        || decimal(body)
}

/// A literal of a 32-bit float, kept as it was written.
#[derive(Debug, PartialEq, Eq)]
pub struct Number {
    text: String,
}

impl View for Number {
    type V = Seq<char>;

    closed spec fn view(&self) -> Seq<char> {
        self.text@
    }
}

impl Clone for Number {
    fn clone(&self) -> (r: Number)
        ensures
            r@ == self@,
    {
        proof {
            use_type_invariant(self);
        }
        Number { text: self.text.clone() }
    }
}

impl Number {
    #[verifier::type_invariant]
    spec fn well_formed(&self) -> bool {
        is_float_literal(self.text@)
    }

    /// The number that `s` spells, if `s` is a float literal.
    pub fn new(s: &[char]) -> (r: Option<Number>)
        ensures
            is_float_literal(s@) <==> r is Some,
            r matches Some(n) ==> n@ == s@,
    {
        if float_literal(s) {
            Some(Number { text: string_of(s) })
        } else {
            None
        }
    }

    /// The literal.
    pub fn as_str(&self) -> (s: &str)
        ensures
            s@ == self@,
            is_float_literal(s@),
    {
        proof {
            use_type_invariant(self);
        }
        self.text.as_str()
    }
}

/// The units a length can be written in.
#[derive(Debug, Clone, Copy, PartialEq, Eq, Structural)]
pub enum Unit {
    Percent,
    Pixels,
    ViewportMax,
    ViewportMin,
    ViewportWidth,
    ViewportHeight,
}

/// A layout length: a number in one of the units, or `Auto`.
#[derive(Debug, PartialEq, Eq)]
pub enum Dimension {
    Pixels(Number),
    Percent(Number),
    ViewportWidth(Number),
    ViewportHeight(Number),
    ViewportMin(Number),
    ViewportMax(Number),
    Auto,
}

/// A dimension with its number as a sequence of characters.
pub enum DimensionModel {
    Pixels(Seq<char>),
    Percent(Seq<char>),
    ViewportWidth(Seq<char>),
    ViewportHeight(Seq<char>),
    ViewportMin(Seq<char>),
    ViewportMax(Seq<char>),
    Auto,
}

impl DimensionModel {
    /// `number` in `unit`.
    pub open spec fn of(unit: Unit, number: Seq<char>) -> DimensionModel {
        match unit {
            Unit::Percent => DimensionModel::Percent(number),
            Unit::Pixels => DimensionModel::Pixels(number),
            Unit::ViewportMax => DimensionModel::ViewportMax(number),
            Unit::ViewportMin => DimensionModel::ViewportMin(number),
            Unit::ViewportWidth => DimensionModel::ViewportWidth(number),
            Unit::ViewportHeight => DimensionModel::ViewportHeight(number),
        }
    }
}

impl View for Dimension {
    type V = DimensionModel;

    open spec fn view(&self) -> DimensionModel {
        match self {
            Dimension::Pixels(n) => DimensionModel::Pixels(n@),
            Dimension::Percent(n) => DimensionModel::Percent(n@),
            Dimension::ViewportWidth(n) => DimensionModel::ViewportWidth(n@),
            Dimension::ViewportHeight(n) => DimensionModel::ViewportHeight(n@),
            Dimension::ViewportMin(n) => DimensionModel::ViewportMin(n@),
            Dimension::ViewportMax(n) => DimensionModel::ViewportMax(n@),
            Dimension::Auto => DimensionModel::Auto,
        }
    }
}

impl Clone for Dimension {
    fn clone(&self) -> (r: Dimension)
        ensures
            r@ == self@,
    {
        match self {
            Dimension::Pixels(n) => Dimension::Pixels(n.clone()),
            Dimension::Percent(n) => Dimension::Percent(n.clone()),
            Dimension::ViewportWidth(n) => Dimension::ViewportWidth(n.clone()),
            Dimension::ViewportHeight(n) => Dimension::ViewportHeight(n.clone()),
            Dimension::ViewportMin(n) => Dimension::ViewportMin(n.clone()),
            Dimension::ViewportMax(n) => Dimension::ViewportMax(n.clone()),
            Dimension::Auto => Dimension::Auto,
        }
    }
}

impl Dimension {
    /// `number` in `unit`.
    pub fn of(unit: Unit, number: Number) -> (d: Dimension)
        ensures
            d@ == DimensionModel::of(unit, number@),
    {
        match unit {
            Unit::Percent => Dimension::Percent(number),
            Unit::Pixels => Dimension::Pixels(number),
            Unit::ViewportMax => Dimension::ViewportMax(number),
            Unit::ViewportMin => Dimension::ViewportMin(number),
            Unit::ViewportWidth => Dimension::ViewportWidth(number),
            Unit::ViewportHeight => Dimension::ViewportHeight(number),
        }
    }
}

/// Why `number` is no float literal: it is empty, or it is not of the grammar.
pub open spec fn float_error(number: Seq<char>) -> Seq<char> {
    if number.len() == 0 {
        "cannot parse float from empty string"@
    } else {
        "invalid float literal"@
    }
}

/// The message for a dimension `literal` whose number `number` is no float literal.
pub open spec fn gap_error(literal: Seq<char>, number: Seq<char>) -> Seq<char> {
    "invalid gap tag `"@ + literal + "`: "@ + float_error(number)
}

/// `number` in `unit`, or the message that says why `number` is no float literal.
pub open spec fn measure_spec(literal: Seq<char>, number: Seq<char>, unit: Unit) -> Result<
    DimensionModel,
    Seq<char>,
> {
    if is_float_literal(number) {
        Ok(DimensionModel::of(unit, number))
    } else {
        Err(gap_error(literal, number))
    }
}

/// What a dimension literal denotes. The unit suffixes are tried in a fixed order,
/// `%`, `px`, `vmax`, `vmin`, `vw`, `vh`, and what stands before the first that
/// matches is the number; `auto` is `Auto`; anything else is a number of pixels.
pub open spec fn parse_val_spec(s: Seq<char>) -> Result<DimensionModel, Seq<char>> {
    if let Some(n) = without_suffix(s, "%"@) {
        measure_spec(s, n, Unit::Percent)
    } else if let Some(n) = without_suffix(s, "px"@) {
        measure_spec(s, n, Unit::Pixels)
    } else if let Some(n) = without_suffix(s, "vmax"@) {
        measure_spec(s, n, Unit::ViewportMax)
    } else if let Some(n) = without_suffix(s, "vmin"@) {
        measure_spec(s, n, Unit::ViewportMin)
    } else if let Some(n) = without_suffix(s, "vw"@) {
        measure_spec(s, n, Unit::ViewportWidth)
    } else if let Some(n) = without_suffix(s, "vh"@) {
        measure_spec(s, n, Unit::ViewportHeight)
    } else if s == "auto"@ {
        Ok(DimensionModel::Auto)
    } else {
        measure_spec(s, s, Unit::Pixels)
    }
}

impl Unit {
    /// What the unit is written as, behind the number.
    pub open spec fn suffix(self) -> Seq<char> {
        match self {
            Unit::Percent => "%"@,
            Unit::Pixels => "px"@,
            Unit::ViewportMax => "vmax"@,
            Unit::ViewportMin => "vmin"@,
            Unit::ViewportWidth => "vw"@,
            Unit::ViewportHeight => "vh"@,
        }
    }
}

/// A number written with its unit reads back as that number in that unit: no
/// suffix that is tried earlier takes a part of another.
pub proof fn lemma_written_dimension_reads_back(number: Seq<char>, unit: Unit)
    requires
        is_float_literal(number),
    ensures
        parse_val_spec(number + unit.suffix()) == Ok::<DimensionModel, Seq<char>>(
            DimensionModel::of(unit, number),
        ),
{
    reveal_strlit("%");
    reveal_strlit("px");
    reveal_strlit("vmax");
    reveal_strlit("vmin");
    reveal_strlit("vw");
    reveal_strlit("vh");
    let written = number + unit.suffix();
    let end = written.len() as int;
    assert(written.subrange(end - unit.suffix().len(), end) =~= unit.suffix());
    assert(written.take(end - unit.suffix().len()) =~= number);
    assert forall|other: Unit| other != unit implies without_suffix(written, other.suffix())
        is None by {
        let tail = written.subrange(end - other.suffix().len(), end);
        if written.len() >= other.suffix().len() {
            assert(tail[other.suffix().len() - 1] == written[end - 1]);
            if other.suffix().len() >= 2 {
                assert(tail[other.suffix().len() - 2] == written[end - 2]);
            }
        }
    }
    assert(unit == Unit::Percent || without_suffix(written, Unit::Percent.suffix()) is None);
    assert(unit == Unit::Pixels || without_suffix(written, Unit::Pixels.suffix()) is None);
    assert(unit == Unit::ViewportMax || without_suffix(written, Unit::ViewportMax.suffix())
        is None);
    assert(unit == Unit::ViewportMin || without_suffix(written, Unit::ViewportMin.suffix())
        is None);
    assert(unit == Unit::ViewportWidth || without_suffix(written, Unit::ViewportWidth.suffix())
        is None);
}

/// `number` in `unit`, or the error that says why `number` is no float literal.
fn measure(literal: &[char], number: &[char], unit: Unit) -> (r: Result<Dimension, HtmlUiError>)
    ensures
        match r {
            Ok(d) => measure_spec(literal@, number@, unit) == Ok::<DimensionModel, Seq<char>>(d@),
            Err(e) => measure_spec(literal@, number@, unit) matches Err(m) && e@
                == ErrorModel::ParseError(m),
        },
{
    match Number::new(number) {
        Some(n) => Ok(Dimension::of(unit, n)),
        None => {
            let mut message = String::from_str("invalid gap tag `");
            push_chars(&mut message, literal);
            message.append("`: ");
            if number.len() == 0 {
                message.append("cannot parse float from empty string");
            } else {
                message.append("invalid float literal");
            }
            Err(HtmlUiError::ParseError(message))
        },
    }
}

/// Reads a dimension literal.
pub fn parse_val(string: &[char]) -> (r: Result<Dimension, HtmlUiError>)
    ensures
        match r {
            Ok(d) => parse_val_spec(string@) == Ok::<DimensionModel, Seq<char>>(d@),
            Err(e) => parse_val_spec(string@) matches Err(m) && e@ == ErrorModel::ParseError(m),
        },
{
    if let Some(n) = strip_suffix(string, "%") {
        measure(string, n, Unit::Percent)
    } else if let Some(n) = strip_suffix(string, "px") {
        measure(string, n, Unit::Pixels)
    } else if let Some(n) = strip_suffix(string, "vmax") {
        measure(string, n, Unit::ViewportMax)
    } else if let Some(n) = strip_suffix(string, "vmin") {
        measure(string, n, Unit::ViewportMin)
    } else if let Some(n) = strip_suffix(string, "vw") {
        measure(string, n, Unit::ViewportWidth)
    } else if let Some(n) = strip_suffix(string, "vh") {
        measure(string, n, Unit::ViewportHeight)
    } else if equals(string, "auto") {
        Ok(Dimension::Auto)
    } else {
        measure(string, string, Unit::Pixels)
    }
}

} // verus!
