//! The `printf` family of functions.
//!
//! Formatting has two steps. The format string is first parsed into
//! directives; the directives are then carried out one by one, each taking its
//! arguments from the variadic cursor. The outcome is a list of pieces: text
//! that is final, and requests for what only the host can write out, namely
//! floating-point numbers and descriptions of objects.

use crate::abi::{DotDotDot, DoubleBits, GuestArg, VaList};
use crate::ascii::{
    AT, DOT, LOWER_C, LOWER_D, LOWER_E, LOWER_F, LOWER_G, LOWER_I, LOWER_L, LOWER_O, LOWER_P,
    LOWER_S, LOWER_U, LOWER_X, NINE, NUL, PERCENT, SPACE, STAR, UPPER_C, UPPER_X, ZERO,
};
use crate::bytes::{bytes_to_vec, push_bytes};
use crate::environment::Environment;
use crate::libc::stdio::text::{
    hex, hex_text, is_surrogate, null_text, pad_left, pad_left_text, pointer, pointer_text,
    signed_decimal, signed_decimal_text, utf8, utf8_text, zero_filled, zero_filled_text,
};
use crate::mem::{overwrite, u32_le, ConstPtr, GuestUSize, Mem, MemError, MutPtr, MutVoidPtr};
use crate::objc::id;
use vstd::prelude::*;

verus! {

/// Why a format could not be carried out.
#[derive(Clone, Copy, Debug, PartialEq, Eq, Structural)]
pub enum PrintfError {
    /// The format ends in the middle of a conversion.
    MissingSpecifier,
    /// A width or a precision is too large a number.
    Overflow,
    /// The width taken from the arguments is negative.
    NegativeWidth,
    /// A precision stands before a specifier that takes none.
    PrecisionNotAllowed,
    /// A length modifier stands before a specifier that takes none.
    LengthModifierNotAllowed,
    /// A width or a zero flag stands before a specifier that takes none.
    PaddingNotAllowed,
    /// The argument of `%C` is one half of a surrogate pair.
    InvalidCharacter,
    /// The specifier is not one of those that are carried out.
    UnknownSpecifier,
    /// The host's texts are not as many as the pieces that were left for it.
    HostTextMismatch,
    /// The destination has no room, not even for the terminator.
    NoRoom,
    /// The output is longer than the number that is to report its length can
    /// tell.
    TooLong,
    /// Guest memory refused a read or a write.
    Mem(MemError),
}

/// The width of a conversion.
#[derive(Clone, Copy, Debug, PartialEq, Eq, Structural)]
pub enum Width {
    /// Given in the format; zero where the format gives none.
    Fixed(i32),
    /// `*`: taken from the arguments, before the value.
    FromArgument,
}

/// A conversion: what stands between a `%` and its specifier, and the
/// specifier.
#[derive(Clone, Copy, Debug, PartialEq, Eq, Structural)]
pub struct Conversion {
    pub zero_pad: bool,
    pub width: Width,
    pub precision: Option<u32>,
    pub long: bool,
    pub specifier: u8,
}

/// One part of a format.
#[derive(Debug)]
pub enum Directive {
    /// Bytes that are written out as they are.
    Literal(Vec<u8>),
    Conversion(Conversion),
}

/// A directive as a value of specifications.
pub enum DirectiveView {
    Literal(Seq<u8>),
    Conversion(Conversion),
}

impl View for Directive {
    type V = DirectiveView;

    open spec fn view(&self) -> DirectiveView {
        match self {
            Directive::Literal(bytes) => DirectiveView::Literal(bytes@),
            Directive::Conversion(c) => DirectiveView::Conversion(*c),
        }
    }
}

/// The views of a list of directives.
pub open spec fn directive_views(directives: Seq<Directive>) -> Seq<DirectiveView> {
    Seq::new(directives.len(), |i: int| directives[i]@)
}

/// The byte at an index of a format, and NUL beyond its end.
pub open spec fn char_at(fmt: Seq<u8>, i: int) -> u8 {
    if 0 <= i < fmt.len() {
        fmt[i]
    } else {
        NUL
    }
}

/// Whether a byte is a decimal digit.
pub open spec fn is_digit(c: u8) -> bool {
    ZERO <= c <= NINE
}

/// Where the run of digits that starts at `i` ends.
pub open spec fn digits_end(fmt: Seq<u8>, i: int) -> int
    decreases fmt.len() - i,
{
    if is_digit(char_at(fmt, i)) {
        digits_end(fmt, i + 1)
    } else {
        i
    }
}

/// The number that the digits from `i` up to `end` denote.
pub open spec fn digits_value(fmt: Seq<u8>, i: int, end: int) -> nat
    decreases end - i,
{
    if end <= i {
        0
    } else {
        (digits_value(fmt, i, end - 1) * 10 + (char_at(fmt, end - 1) - ZERO)) as nat
    }
}

/// Where the run of literal bytes that starts at `i` ends: at the next `%` or
/// at the end of the format.
pub open spec fn literal_end(fmt: Seq<u8>, i: int) -> int
    decreases fmt.len() - i,
{
    if char_at(fmt, i) != NUL && char_at(fmt, i) != PERCENT {
        literal_end(fmt, i + 1)
    } else {
        i
    }
}

/// The width that stands at `i`, and where it ends.
pub open spec fn width_at(fmt: Seq<u8>, i: int) -> Result<(Width, int), PrintfError> {
    if char_at(fmt, i) == STAR {
        Ok((Width::FromArgument, i + 1))
    } else {
        let end = digits_end(fmt, i);
        if digits_value(fmt, i, end) > i32::MAX {
            Err(PrintfError::Overflow)
        } else {
            Ok((Width::Fixed(digits_value(fmt, i, end) as i32), end))
        }
    }
}

/// The precision that stands at `i`, if one does, and where it ends.
pub open spec fn precision_at(fmt: Seq<u8>, i: int) -> Result<(Option<u32>, int), PrintfError> {
    if char_at(fmt, i) == DOT {
        let end = digits_end(fmt, i + 1);
        if digits_value(fmt, i + 1, end) > u32::MAX {
            Err(PrintfError::Overflow)
        } else {
            Ok((Some(digits_value(fmt, i + 1, end) as u32), end))
        }
    } else {
        Ok((None, i))
    }
}

/// The conversion whose `%` stands just before `i`, and where it ends: an
/// optional zero flag, a width, an optional precision, an optional `l`, and
/// the specifier.
pub open spec fn conversion_at(fmt: Seq<u8>, i: int) -> Result<(Conversion, int), PrintfError> {
    let zero_pad = char_at(fmt, i) == ZERO;
    let i1 = if zero_pad {
        i + 1
    } else {
        i
    };
    match width_at(fmt, i1) {
        Err(e) => Err(e),
        Ok((width, i2)) => match precision_at(fmt, i2) {
            Err(e) => Err(e),
            Ok((precision, i3)) => {
                let long = char_at(fmt, i3) == LOWER_L;
                let i4 = if long {
                    i3 + 1
                } else {
                    i3
                };
                if char_at(fmt, i4) == NUL {
                    Err(PrintfError::MissingSpecifier)
                } else {
                    Ok(
                        (
                            Conversion {
                                zero_pad,
                                width,
                                precision,
                                long,
                                specifier: char_at(fmt, i4),
                            },
                            i4 + 1,
                        ),
                    )
                }
            },
        },
    }
}

/// A list of directives before what the rest of a format gives.
pub open spec fn prepend(
    before: Seq<DirectiveView>,
    rest: Result<Seq<DirectiveView>, PrintfError>,
) -> Result<Seq<DirectiveView>, PrintfError> {
    match rest {
        Ok(after) => Ok(before + after),
        Err(e) => Err(e),
    }
}

/// The directives of a format from `i` on. The format ends at its first NUL
/// byte, or where the bytes end. Every run of literal bytes and every
/// conversion ends after its start and within the format; the tests for that
/// are here to show that the parse comes to an end.
pub open spec fn parse_from(fmt: Seq<u8>, i: int) -> Result<Seq<DirectiveView>, PrintfError>
    decreases fmt.len() - i,
{
    if char_at(fmt, i) == NUL {
        Ok(Seq::empty())
    } else if char_at(fmt, i) != PERCENT {
        let end = literal_end(fmt, i);
        if i < end <= fmt.len() {
            prepend(seq![DirectiveView::Literal(fmt.subrange(i, end))], parse_from(fmt, end))
        } else {
            Ok(Seq::empty())
        }
    } else {
        match conversion_at(fmt, i + 1) {
            Err(e) => Err(e),
            Ok((c, next)) => if i < next <= fmt.len() {
                prepend(seq![DirectiveView::Conversion(c)], parse_from(fmt, next))
            } else {
                Ok(Seq::empty())
            },
        }
    }
}

/// The directives of a format.
pub open spec fn parsed(fmt: Seq<u8>) -> Result<Seq<DirectiveView>, PrintfError> {
    parse_from(fmt, 0)
}

/// A run of literal bytes ends within the format, and after its start unless
/// the start is the end of the format or a `%`.
pub proof fn lemma_literal_end(fmt: Seq<u8>, i: int)
    requires
        0 <= i <= fmt.len(),
    ensures
        i <= literal_end(fmt, i) <= fmt.len(),
        char_at(fmt, i) != NUL && char_at(fmt, i) != PERCENT ==> i < literal_end(fmt, i),
        char_at(fmt, literal_end(fmt, i)) == NUL || char_at(fmt, literal_end(fmt, i)) == PERCENT,
    decreases fmt.len() - i,
{
    if char_at(fmt, i) != NUL && char_at(fmt, i) != PERCENT {
        lemma_literal_end(fmt, i + 1);
    }
}

/// Reads the run of digits that starts at `start`. Answers where the run
/// ends, and its value unless that is above `limit`.
fn scan_number(fmt: &[u8], start: usize, limit: u64) -> (res: (usize, Option<u64>))
    requires
        start <= fmt@.len(),
        limit <= 0xffff_ffff,
    ensures
        res.0 == digits_end(fmt@, start as int),
        start <= res.0 <= fmt@.len(),
        match res.1 {
            Some(v) => v == digits_value(fmt@, start as int, res.0 as int) && v <= limit,
            None => digits_value(fmt@, start as int, res.0 as int) > limit,
        },
{
    let mut j: usize = start;
    let mut value: u64 = 0;
    let mut over: bool = false;
    while j < fmt.len() && ZERO <= fmt[j] && fmt[j] <= NINE
        invariant
            start <= j <= fmt@.len(),
            limit <= 0xffff_ffff,
            digits_end(fmt@, start as int) == digits_end(fmt@, j as int),
            !over ==> value == digits_value(fmt@, start as int, j as int) && value <= limit,
            over ==> digits_value(fmt@, start as int, j as int) > limit,
        decreases fmt@.len() - j,
    {
        let digit: u64 = (fmt[j] - ZERO) as u64;
        assert(digits_value(fmt@, start as int, j + 1) == digits_value(
            fmt@,
            start as int,
            j as int,
        ) * 10 + digit);
        if !over {
            let next: u64 = value * 10 + digit;
            if next > limit {
                over = true;
            } else {
                value = next;
            }
        }
        j += 1;
    }
    if over {
        (j, None)
    } else {
        (j, Some(value))
    }
}

/// Parses the conversion whose `%` stands just before `start`.
fn parse_conversion(fmt: &[u8], start: usize) -> (res: Result<(Conversion, usize), PrintfError>)
    requires
        start <= fmt@.len(),
    ensures
        match res {
            Ok((c, next)) => conversion_at(fmt@, start as int) == Ok::<
                (Conversion, int),
                PrintfError,
            >((c, next as int)) && start < next <= fmt@.len(),
            Err(e) => conversion_at(fmt@, start as int) == Err::<(Conversion, int), PrintfError>(e),
        },
{
    let mut i: usize = start;
    let zero_pad = i < fmt.len() && fmt[i] == ZERO;
    if zero_pad {
        i += 1;
    }
    let width = if i < fmt.len() && fmt[i] == STAR {
        i += 1;
        Width::FromArgument
    } else {
        let (end, value) = scan_number(fmt, i, 0x7fff_ffff);
        i = end;
        match value {
            Some(v) => Width::Fixed(v as i32),
            None => {
                return Err(PrintfError::Overflow);
            },
        }
    };
    let precision = if i < fmt.len() && fmt[i] == DOT {
        let (end, value) = scan_number(fmt, i + 1, 0xffff_ffff);
        i = end;
        match value {
            Some(v) => Some(v as u32),
            None => {
                return Err(PrintfError::Overflow);
            },
        }
    } else {
        None
    };
    let long = i < fmt.len() && fmt[i] == LOWER_L;
    if long {
        i += 1;
    }
    if i >= fmt.len() || fmt[i] == NUL {
        return Err(PrintfError::MissingSpecifier);
    }
    Ok((Conversion { zero_pad, width, precision, long, specifier: fmt[i] }, i + 1))
}

/// Parses a format into its directives.
pub fn parse(fmt: &[u8]) -> (res: Result<Vec<Directive>, PrintfError>)
    ensures
        match res {
            Ok(directives) => parsed(fmt@) == Ok::<Seq<DirectiveView>, PrintfError>(
                directive_views(directives@),
            ),
            Err(e) => parsed(fmt@) == Err::<Seq<DirectiveView>, PrintfError>(e),
        },
{
    let mut out: Vec<Directive> = Vec::new();
    let mut i: usize = 0;
    assert(directive_views(out@) + Seq::<DirectiveView>::empty() =~= Seq::<DirectiveView>::empty());
    loop
        invariant
            i <= fmt@.len(),
            parsed(fmt@) == prepend(directive_views(out@), parse_from(fmt@, i as int)),
        decreases fmt@.len() - i,
    {
        let ghost before = directive_views(out@);
        if i >= fmt.len() || fmt[i] == NUL {
            assert(before + Seq::<DirectiveView>::empty() =~= before);
            return Ok(out);
        }
        if fmt[i] != PERCENT {
            let start = i;
            while i < fmt.len() && fmt[i] != NUL && fmt[i] != PERCENT
                invariant
                    start <= i <= fmt@.len(),
                    literal_end(fmt@, start as int) == literal_end(fmt@, i as int),
                decreases fmt@.len() - i,
            {
                i += 1;
            }
            proof {
                lemma_literal_end(fmt@, start as int);
            }
            let run = bytes_to_vec(vstd::slice::slice_subrange(fmt, start, i));
            out.push(Directive::Literal(run));
            proof {
                let piece = seq![DirectiveView::Literal(fmt@.subrange(start as int, i as int))];
                assert(directive_views(out@) =~= before + piece);
                match parse_from(fmt@, i as int) {
                    Ok(rest) => {
                        assert(before + (piece + rest) =~= (before + piece) + rest);
                    },
                    Err(_) => {},
                }
            }
        } else {
            match parse_conversion(fmt, i + 1) {
                Ok((c, next)) => {
                    out.push(Directive::Conversion(c));
                    proof {
                        let piece = seq![DirectiveView::Conversion(c)];
                        assert(directive_views(out@) =~= before + piece);
                        match parse_from(fmt@, next as int) {
                            Ok(rest) => {
                                assert(before + (piece + rest) =~= (before + piece) + rest);
                            },
                            Err(_) => {},
                        }
                    }
                    i = next;
                },
                Err(e) => {
                    return Err(e);
                },
            }
        }
    }
}


/// How the host is to write out a floating-point number.
#[derive(Clone, Copy, Debug, PartialEq, Eq, Structural)]
pub struct FloatFormat {
    /// `f`, `e` or `g`.
    pub specifier: u8,
    pub zero_pad: bool,
    pub width: i32,
    pub precision: Option<u32>,
}

/// One piece of formatted output.
#[derive(Debug)]
pub enum Piece {
    /// Text that is final.
    Text(Vec<u8>),
    /// A floating-point number, by its bits, for the host to write out.
    Float { bits: u64, format: FloatFormat },
    /// An object whose description the host is to put here.
    Object(id),
}

/// A piece as a value of specifications.
pub enum PieceView {
    Text(Seq<u8>),
    Float { bits: u64, format: FloatFormat },
    Object(id),
}

impl View for Piece {
    type V = PieceView;

    open spec fn view(&self) -> PieceView {
        match self {
            Piece::Text(bytes) => PieceView::Text(bytes@),
            Piece::Float { bits, format } => PieceView::Float { bits: *bits, format: *format },
            Piece::Object(object) => PieceView::Object(*object),
        }
    }
}

/// The views of a list of pieces.
pub open spec fn piece_views(pieces: Seq<Piece>) -> Seq<PieceView> {
    Seq::new(pieces.len(), |i: int| pieces[i]@)
}

/// A cursor moved on by a number of argument words.
pub open spec fn advanced(args: VaList, words: nat) -> VaList {
    VaList { reg_offset: (args.reg_offset + words) as usize, stack: args.stack }
}

/// The next argument as a `T`, and the cursor behind it.
pub open spec fn fetched<T: GuestArg>(env: &Environment, args: VaList) -> Result<
    (T, VaList),
    PrintfError,
> {
    match args.peek_access::<T>(env) {
        Ok(_) => Ok((T::from_words(args.peek_words::<T>(env)), advanced(args, T::reg_count()))),
        Err(e) => Err(PrintfError::Mem(e)),
    }
}

/// The width of a conversion, and the cursor behind the argument that a `*`
/// takes it from.
pub open spec fn resolved_width(c: Conversion, env: &Environment, args: VaList) -> Result<
    (i32, VaList),
    PrintfError,
> {
    match c.width {
        Width::Fixed(w) => Ok((w, args)),
        Width::FromArgument => match fetched::<i32>(env, args) {
            Err(e) => Err(e),
            Ok((w, rest)) => if w < 0 {
                Err(PrintfError::NegativeWidth)
            } else {
                Ok((w, rest))
            },
        },
    }
}

/// Whether a specifier may follow a precision.
pub open spec fn takes_precision(specifier: u8) -> bool {
    specifier == LOWER_D || specifier == LOWER_I || specifier == LOWER_O || specifier == LOWER_U
        || specifier == LOWER_X || specifier == UPPER_X || specifier == LOWER_F || specifier
        == LOWER_E || specifier == LOWER_G
}

/// An integer as `%d`, `%i` and `%u` write it: with a precision above zero,
/// filled with zeros to that many characters, sign included; then filled up on
/// the left to the width, with zeros where the zero flag stands and no
/// precision does, else with spaces.
pub open spec fn integer_text(v: int, c: Conversion, width: i32) -> Seq<u8> {
    let digits = if c.precision is Some && c.precision.unwrap() > 0 {
        zero_filled(v, c.precision.unwrap() as int)
    } else {
        signed_decimal(v)
    };
    pad_left(
        digits,
        width as int,
        if c.zero_pad && c.precision is None {
            ZERO
        } else {
            SPACE
        },
    )
}

/// `%c`: one byte, as it is.
pub open spec fn byte_piece(c: Conversion, width: i32, env: &Environment, args: VaList) -> Result<
    (PieceView, VaList),
    PrintfError,
> {
    if c.long {
        Err(PrintfError::LengthModifierNotAllowed)
    } else {
        match fetched::<u8>(env, args) {
            Err(e) => Err(e),
            Ok((v, rest)) => if c.zero_pad || width != 0 {
                Err(PrintfError::PaddingNotAllowed)
            } else {
                Ok((PieceView::Text(seq![v]), rest))
            },
        }
    }
}

/// `%C`: one UTF-16 code unit, in UTF-8.
pub open spec fn unichar_piece(
    c: Conversion,
    width: i32,
    env: &Environment,
    args: VaList,
) -> Result<(PieceView, VaList), PrintfError> {
    if c.long {
        Err(PrintfError::LengthModifierNotAllowed)
    } else {
        match fetched::<u16>(env, args) {
            Err(e) => Err(e),
            Ok((v, rest)) => if c.zero_pad || width != 0 {
                Err(PrintfError::PaddingNotAllowed)
            } else if is_surrogate(v) {
                Err(PrintfError::InvalidCharacter)
            } else {
                Ok((PieceView::Text(utf8(v)), rest))
            },
        }
    }
}

/// `%s`: the string that the argument points at, or `(null)`.
pub open spec fn string_piece(
    c: Conversion,
    width: i32,
    env: &Environment,
    args: VaList,
) -> Result<(PieceView, VaList), PrintfError> {
    if c.long {
        Err(PrintfError::LengthModifierNotAllowed)
    } else {
        match fetched::<ConstPtr<u8>>(env, args) {
            Err(e) => Err(e),
            Ok((p, rest)) => if c.zero_pad || width != 0 {
                Err(PrintfError::PaddingNotAllowed)
            } else if p@ == 0 {
                Ok((PieceView::Text(null_text()), rest))
            } else {
                match env.mem.cstr_result(p@) {
                    Ok(text) => Ok((PieceView::Text(text), rest)),
                    Err(e) => Err(PrintfError::Mem(e)),
                }
            },
        }
    }
}

/// `%d`, `%i`: a signed integer in decimal.
pub open spec fn signed_piece(
    c: Conversion,
    width: i32,
    env: &Environment,
    args: VaList,
) -> Result<(PieceView, VaList), PrintfError> {
    match fetched::<i32>(env, args) {
        Err(e) => Err(e),
        Ok((v, rest)) => Ok((PieceView::Text(integer_text(v as int, c, width)), rest)),
    }
}

/// `%u`: an unsigned integer in decimal.
pub open spec fn unsigned_piece(
    c: Conversion,
    width: i32,
    env: &Environment,
    args: VaList,
) -> Result<(PieceView, VaList), PrintfError> {
    match fetched::<u32>(env, args) {
        Err(e) => Err(e),
        Ok((v, rest)) => Ok((PieceView::Text(integer_text(v as int, c, width)), rest)),
    }
}

/// `%x`, `%X`: an unsigned integer in hexadecimal. Width and precision are
/// passed over.
pub open spec fn hex_piece(upper: bool, env: &Environment, args: VaList) -> Result<
    (PieceView, VaList),
    PrintfError,
> {
    match fetched::<u32>(env, args) {
        Err(e) => Err(e),
        Ok((v, rest)) => Ok((PieceView::Text(hex(v as nat, upper)), rest)),
    }
}

/// `%p`: a pointer.
pub open spec fn pointer_piece(c: Conversion, env: &Environment, args: VaList) -> Result<
    (PieceView, VaList),
    PrintfError,
> {
    if c.long {
        Err(PrintfError::LengthModifierNotAllowed)
    } else {
        match fetched::<MutVoidPtr>(env, args) {
            Err(e) => Err(e),
            Ok((p, rest)) => Ok((PieceView::Text(pointer(p@ as nat)), rest)),
        }
    }
}

/// `%@`: an object, for the host to describe.
pub open spec fn object_piece(c: Conversion, env: &Environment, args: VaList) -> Result<
    (PieceView, VaList),
    PrintfError,
> {
    if c.long {
        Err(PrintfError::LengthModifierNotAllowed)
    } else {
        match fetched::<id>(env, args) {
            Err(e) => Err(e),
            Ok((object, rest)) => Ok((PieceView::Object(object), rest)),
        }
    }
}

/// `%f`, `%e`, `%g`: a floating-point number, for the host to write out.
pub open spec fn float_piece(
    c: Conversion,
    width: i32,
    env: &Environment,
    args: VaList,
) -> Result<(PieceView, VaList), PrintfError> {
    match fetched::<DoubleBits>(env, args) {
        Err(e) => Err(e),
        Ok((v, rest)) => Ok(
            (
                PieceView::Float {
                    bits: v.bits,
                    format: FloatFormat {
                        specifier: c.specifier,
                        zero_pad: c.zero_pad,
                        width,
                        precision: c.precision,
                    },
                },
                rest,
            ),
        ),
    }
}

/// What a conversion gives, once its width is known. `ns_log` tells whether
/// `%@` is to be carried out.
pub open spec fn conversion_piece(
    c: Conversion,
    width: i32,
    ns_log: bool,
    env: &Environment,
    args: VaList,
) -> Result<(PieceView, VaList), PrintfError> {
    if c.specifier == PERCENT {
        Ok((PieceView::Text(seq![PERCENT]), args))
    } else if c.precision is Some && !takes_precision(c.specifier) {
        Err(PrintfError::PrecisionNotAllowed)
    } else if c.specifier == LOWER_C {
        byte_piece(c, width, env, args)
    } else if c.specifier == UPPER_C {
        unichar_piece(c, width, env, args)
    } else if c.specifier == LOWER_S {
        string_piece(c, width, env, args)
    } else if c.specifier == LOWER_D || c.specifier == LOWER_I {
        signed_piece(c, width, env, args)
    } else if c.specifier == LOWER_U {
        unsigned_piece(c, width, env, args)
    } else if c.specifier == AT && ns_log {
        object_piece(c, env, args)
    } else if c.specifier == LOWER_X {
        hex_piece(false, env, args)
    } else if c.specifier == UPPER_X {
        hex_piece(true, env, args)
    } else if c.specifier == LOWER_P {
        pointer_piece(c, env, args)
    } else if c.specifier == LOWER_F || c.specifier == LOWER_E || c.specifier == LOWER_G {
        float_piece(c, width, env, args)
    } else {
        Err(PrintfError::UnknownSpecifier)
    }
}

/// What a conversion gives, and the cursor behind its arguments.
pub open spec fn carried_out(c: Conversion, ns_log: bool, env: &Environment, args: VaList) -> Result<
    (PieceView, VaList),
    PrintfError,
> {
    match resolved_width(c, env, args) {
        Err(e) => Err(e),
        Ok((width, rest)) => conversion_piece(c, width, ns_log, env, rest),
    }
}

/// What a directive gives, and the cursor behind its arguments.
pub open spec fn directive_piece(
    d: DirectiveView,
    ns_log: bool,
    env: &Environment,
    args: VaList,
) -> Result<(PieceView, VaList), PrintfError> {
    match d {
        DirectiveView::Literal(bytes) => Ok((PieceView::Text(bytes), args)),
        DirectiveView::Conversion(c) => carried_out(c, ns_log, env, args),
    }
}

/// A list of pieces before what the rest of the directives give.
pub open spec fn prepend_pieces(
    before: Seq<PieceView>,
    rest: Result<Seq<PieceView>, PrintfError>,
) -> Result<Seq<PieceView>, PrintfError> {
    match rest {
        Ok(after) => Ok(before + after),
        Err(e) => Err(e),
    }
}

/// What a list of directives gives, first directive first, each taking its
/// arguments where the one before left the cursor.
pub open spec fn pieces_of(
    directives: Seq<DirectiveView>,
    ns_log: bool,
    env: &Environment,
    args: VaList,
) -> Result<Seq<PieceView>, PrintfError>
    decreases directives.len(),
{
    if directives.len() == 0 {
        Ok(Seq::empty())
    } else {
        match directive_piece(directives[0], ns_log, env, args) {
            Err(e) => Err(e),
            Ok((piece, rest)) => prepend_pieces(
                seq![piece],
                pieces_of(directives.drop_first(), ns_log, env, rest),
            ),
        }
    }
}

/// What a format gives with the arguments at a cursor.
pub open spec fn formatted(fmt: Seq<u8>, ns_log: bool, env: &Environment, args: VaList) -> Result<
    Seq<PieceView>,
    PrintfError,
> {
    match parsed(fmt) {
        Err(e) => Err(e),
        Ok(directives) => pieces_of(directives, ns_log, env, args),
    }
}

/// Takes the next argument as a `T`.
fn fetch<T: GuestArg>(env: &Environment, args: VaList) -> (res: Result<(T, VaList), PrintfError>)
    requires
        env.wf(),
    ensures
        res == fetched::<T>(env, args),
{
    let mut cursor = args;
    match cursor.next::<T>(env) {
        Ok(value) => Ok((value, cursor)),
        Err(e) => Err(PrintfError::Mem(e)),
    }
}

/// An integer as `%d`, `%i` and `%u` write it.
fn integer_piece(v: i64, c: &Conversion, width: i32) -> (piece: Piece)
    ensures
        piece@ == PieceView::Text(integer_text(v as int, *c, width)),
{
    let digits = match c.precision {
        Some(p) => if p > 0 {
            zero_filled_text(v, p as usize)
        } else {
            signed_decimal_text(v)
        },
        None => signed_decimal_text(v),
    };
    let fill = if c.zero_pad && c.precision.is_none() {
        ZERO
    } else {
        SPACE
    };
    let columns: usize = if width > 0 {
        width as usize
    } else {
        0
    };
    let text = pad_left_text(digits.as_slice(), columns, fill);
    assert(text@ =~= pad_left(digits@, width as int, fill));
    Piece::Text(text)
}

/// Carries out the conversions that write text from one plain argument:
/// `%c`, `%C` and `%s`.
fn carry_out_plain(c: &Conversion, width: i32, env: &Environment, args: VaList) -> (res: Result<
    (Piece, VaList),
    PrintfError,
>)
    requires
        env.wf(),
        c.specifier == LOWER_C || c.specifier == UPPER_C || c.specifier == LOWER_S,
    ensures
        match res {
            Ok((piece, rest)) => conversion_plain(*c, width, env, args) == Ok::<
                (PieceView, VaList),
                PrintfError,
            >((piece@, rest)),
            Err(e) => conversion_plain(*c, width, env, args) == Err::<
                (PieceView, VaList),
                PrintfError,
            >(e),
        },
{
    if c.long {
        return Err(PrintfError::LengthModifierNotAllowed);
    }
    let padded = c.zero_pad || width != 0;
    if c.specifier == LOWER_C {
        let (v, rest) = fetch::<u8>(env, args)?;
        if padded {
            return Err(PrintfError::PaddingNotAllowed);
        }
        let mut text: Vec<u8> = Vec::new();
        text.push(v);
        assert(text@ =~= seq![v]);
        Ok((Piece::Text(text), rest))
    } else if c.specifier == UPPER_C {
        let (v, rest) = fetch::<u16>(env, args)?;
        if padded {
            return Err(PrintfError::PaddingNotAllowed);
        }
        match utf8_text(v) {
            Some(text) => Ok((Piece::Text(text), rest)),
            None => Err(PrintfError::InvalidCharacter),
        }
    } else {
        let (p, rest) = fetch::<ConstPtr<u8>>(env, args)?;
        if padded {
            return Err(PrintfError::PaddingNotAllowed);
        }
        if p.is_null() {
            Ok((Piece::Text(pointer_text(0)), rest))
        } else {
            match env.mem.cstr_at(p) {
                Ok(text) => Ok((Piece::Text(bytes_to_vec(text)), rest)),
                Err(e) => Err(PrintfError::Mem(e)),
            }
        }
    }
}

/// What `%c`, `%C` and `%s` give.
pub open spec fn conversion_plain(
    c: Conversion,
    width: i32,
    env: &Environment,
    args: VaList,
) -> Result<(PieceView, VaList), PrintfError> {
    if c.specifier == LOWER_C {
        byte_piece(c, width, env, args)
    } else if c.specifier == UPPER_C {
        unichar_piece(c, width, env, args)
    } else {
        string_piece(c, width, env, args)
    }
}

/// Carries out a conversion whose width is known.
fn carry_out_with_width<const NS_LOG: bool>(
    c: &Conversion,
    width: i32,
    env: &Environment,
    args: VaList,
) -> (res: Result<(Piece, VaList), PrintfError>)
    requires
        env.wf(),
    ensures
        match res {
            Ok((piece, rest)) => conversion_piece(*c, width, NS_LOG, env, args) == Ok::<
                (PieceView, VaList),
                PrintfError,
            >((piece@, rest)),
            Err(e) => conversion_piece(*c, width, NS_LOG, env, args) == Err::<
                (PieceView, VaList),
                PrintfError,
            >(e),
        },
{
    let s = c.specifier;
    if s == PERCENT {
        let mut text: Vec<u8> = Vec::new();
        text.push(PERCENT);
        assert(text@ =~= seq![PERCENT]);
        return Ok((Piece::Text(text), args));
    }
    let with_precision = s == LOWER_D || s == LOWER_I || s == LOWER_O || s == LOWER_U || s
        == LOWER_X || s == UPPER_X || s == LOWER_F || s == LOWER_E || s == LOWER_G;
    if c.precision.is_some() && !with_precision {
        return Err(PrintfError::PrecisionNotAllowed);
    }
    if s == LOWER_C || s == UPPER_C || s == LOWER_S {
        carry_out_plain(c, width, env, args)
    } else if s == LOWER_D || s == LOWER_I {
        let (v, rest) = fetch::<i32>(env, args)?;
        Ok((integer_piece(v as i64, c, width), rest))
    } else if s == LOWER_U {
        let (v, rest) = fetch::<u32>(env, args)?;
        Ok((integer_piece(v as i64, c, width), rest))
    } else if s == AT && NS_LOG {
        if c.long {
            return Err(PrintfError::LengthModifierNotAllowed);
        }
        let (object, rest) = fetch::<id>(env, args)?;
        Ok((Piece::Object(object), rest))
    } else if s == LOWER_X || s == UPPER_X {
        let (v, rest) = fetch::<u32>(env, args)?;
        Ok((Piece::Text(hex_text(v, s == UPPER_X)), rest))
    } else if s == LOWER_P {
        if c.long {
            return Err(PrintfError::LengthModifierNotAllowed);
        }
        let (p, rest) = fetch::<MutVoidPtr>(env, args)?;
        Ok((Piece::Text(pointer_text(p.to_bits())), rest))
    } else if s == LOWER_F || s == LOWER_E || s == LOWER_G {
        let (v, rest) = fetch::<DoubleBits>(env, args)?;
        Ok(
            (
                Piece::Float {
                    bits: v.bits,
                    format: FloatFormat {
                        specifier: s,
                        zero_pad: c.zero_pad,
                        width,
                        precision: c.precision,
                    },
                },
                rest,
            ),
        )
    } else {
        Err(PrintfError::UnknownSpecifier)
    }
}

/// Carries out a conversion.
fn carry_out<const NS_LOG: bool>(c: &Conversion, env: &Environment, args: VaList) -> (res: Result<
    (Piece, VaList),
    PrintfError,
>)
    requires
        env.wf(),
    ensures
        match res {
            Ok((piece, rest)) => carried_out(*c, NS_LOG, env, args) == Ok::<
                (PieceView, VaList),
                PrintfError,
            >((piece@, rest)),
            Err(e) => carried_out(*c, NS_LOG, env, args) == Err::<(PieceView, VaList), PrintfError>(
                e,
            ),
        },
{
    match c.width {
        Width::Fixed(w) => carry_out_with_width::<NS_LOG>(c, w, env, args),
        Width::FromArgument => {
            let (w, rest) = fetch::<i32>(env, args)?;
            if w < 0 {
                return Err(PrintfError::NegativeWidth);
            }
            carry_out_with_width::<NS_LOG>(c, w, env, rest)
        },
    }
}


/// Carries out a list of directives, first directive first.
pub fn carry_out_all<const NS_LOG: bool>(
    directives: &Vec<Directive>,
    env: &Environment,
    args: VaList,
) -> (res: Result<Vec<Piece>, PrintfError>)
    requires
        env.wf(),
    ensures
        match res {
            Ok(pieces) => pieces_of(directive_views(directives@), NS_LOG, env, args) == Ok::<
                Seq<PieceView>,
                PrintfError,
            >(piece_views(pieces@)),
            Err(e) => pieces_of(directive_views(directives@), NS_LOG, env, args) == Err::<
                Seq<PieceView>,
                PrintfError,
            >(e),
        },
{
    let ghost all = directive_views(directives@);
    let ghost total = pieces_of(all, NS_LOG, env, args);
    let mut out: Vec<Piece> = Vec::new();
    let mut cursor = args;
    let mut i: usize = 0;
    proof {
        assert(all.subrange(0, all.len() as int) =~= all);
        assert(piece_views(out@) =~= Seq::<PieceView>::empty());
        match total {
            Ok(ps) => {
                assert(Seq::<PieceView>::empty() + ps =~= ps);
            },
            Err(_) => {},
        }
    }
    while i < directives.len()
        invariant
            env.wf(),
            i <= directives@.len(),
            all == directive_views(directives@),
            total == pieces_of(all, NS_LOG, env, args),
            total == prepend_pieces(
                piece_views(out@),
                pieces_of(all.subrange(i as int, all.len() as int), NS_LOG, env, cursor),
            ),
        decreases directives@.len() - i,
    {
        let ghost before = piece_views(out@);
        let ghost rest = all.subrange(i as int, all.len() as int);
        proof {
            assert(rest[0] == directives@[i as int]@);
            assert(rest.drop_first() =~= all.subrange(i + 1, all.len() as int));
        }
        let (piece, next) = match &directives[i] {
            Directive::Literal(bytes) => (Piece::Text(bytes_to_vec(bytes.as_slice())), cursor),
            Directive::Conversion(c) => match carry_out::<NS_LOG>(c, env, cursor) {
                Ok(found) => found,
                Err(e) => {
                    return Err(e);
                },
            },
        };
        let ghost view = piece@;
        out.push(piece);
        proof {
            assert(piece_views(out@) =~= before + seq![view]);
            match pieces_of(all.subrange(i + 1, all.len() as int), NS_LOG, env, next) {
                Ok(ps) => {
                    assert(before + (seq![view] + ps) =~= (before + seq![view]) + ps);
                },
                Err(_) => {},
            }
        }
        cursor = next;
        i += 1;
    }
    proof {
        assert(all.subrange(i as int, all.len() as int) =~= Seq::<DirectiveView>::empty());
        assert(piece_views(out@) + Seq::<PieceView>::empty() =~= piece_views(out@));
    }
    Ok(out)
}

/// Formats: parses the format and carries out its directives with the
/// arguments at the cursor. `NS_LOG` chooses the dialect in which `%@` stands
/// for an object. The format ends at its first NUL byte or where the bytes end.
pub fn printf_inner<const NS_LOG: bool>(env: &Environment, format: &[u8], args: VaList) -> (res:
    Result<Vec<Piece>, PrintfError>)
    requires
        env.wf(),
    ensures
        match res {
            Ok(pieces) => formatted(format@, NS_LOG, env, args) == Ok::<Seq<PieceView>, PrintfError>(
                piece_views(pieces@),
            ),
            Err(e) => formatted(format@, NS_LOG, env, args) == Err::<Seq<PieceView>, PrintfError>(e),
        },
{
    let directives = parse(format)?;
    carry_out_all::<NS_LOG>(&directives, env, args)
}

/// Whether a piece is left for the host to write out.
pub open spec fn is_hole(piece: PieceView) -> bool {
    !(piece is Text)
}

/// Number of pieces that are left for the host.
pub open spec fn holes(pieces: Seq<PieceView>) -> nat
    decreases pieces.len(),
{
    if pieces.len() == 0 {
        0
    } else {
        holes(pieces.drop_last()) + if is_hole(pieces.last()) {
            1nat
        } else {
            0nat
        }
    }
}

/// The pieces joined, with the host's texts in the places of the pieces that
/// were left for it, in order.
pub open spec fn joined(pieces: Seq<PieceView>, host: Seq<Seq<u8>>) -> Seq<u8>
    decreases pieces.len(),
{
    if pieces.len() == 0 {
        Seq::empty()
    } else {
        joined(pieces.drop_last(), host) + match pieces.last() {
            PieceView::Text(text) => text,
            _ => host[holes(pieces.drop_last()) as int],
        }
    }
}

/// The output that pieces and the host's texts make together, where there is
/// one text for each piece left for the host.
pub open spec fn assembled(pieces: Seq<PieceView>, host: Seq<Seq<u8>>) -> Option<Seq<u8>> {
    if host.len() == holes(pieces) {
        Some(joined(pieces, host))
    } else {
        None
    }
}

/// The views of a list of texts.
pub open spec fn text_views(texts: Seq<Vec<u8>>) -> Seq<Seq<u8>> {
    Seq::new(texts.len(), |i: int| texts[i]@)
}

/// A part of a list of pieces leaves no more to the host than the whole.
pub proof fn lemma_holes_prefix(pieces: Seq<PieceView>, i: int)
    requires
        0 <= i <= pieces.len(),
    ensures
        holes(pieces.subrange(0, i)) <= holes(pieces),
    decreases pieces.len() - i,
{
    if i == pieces.len() {
        assert(pieces.subrange(0, i) =~= pieces);
    } else {
        assert(pieces.subrange(0, i + 1).drop_last() =~= pieces.subrange(0, i));
        lemma_holes_prefix(pieces, i + 1);
    }
}

/// Number of pieces that are left for the host.
pub fn count_holes(pieces: &Vec<Piece>) -> (count: usize)
    ensures
        count == holes(piece_views(pieces@)),
{
    let ghost all = piece_views(pieces@);
    let mut count: usize = 0;
    let mut i: usize = 0;
    assert(all.subrange(0, 0) =~= Seq::<PieceView>::empty());
    while i < pieces.len()
        invariant
            i <= pieces@.len(),
            all == piece_views(pieces@),
            count == holes(all.subrange(0, i as int)),
            count <= i,
        decreases pieces@.len() - i,
    {
        proof {
            assert(all.subrange(0, i + 1).drop_last() =~= all.subrange(0, i as int));
            assert(all.subrange(0, i + 1).last() == pieces@[i as int]@);
        }
        match &pieces[i] {
            Piece::Text(_) => {},
            _ => {
                count += 1;
            },
        }
        i += 1;
    }
    assert(all.subrange(0, all.len() as int) =~= all);
    count
}

/// Joins pieces and the host's texts into the output. Answers `None` unless
/// there is exactly one text for each piece that was left for the host.
pub fn assemble(pieces: &Vec<Piece>, host: &Vec<Vec<u8>>) -> (res: Option<Vec<u8>>)
    ensures
        match res {
            Some(out) => assembled(piece_views(pieces@), text_views(host@)) == Some(out@),
            None => assembled(piece_views(pieces@), text_views(host@)) is None,
        },
{
    if count_holes(pieces) != host.len() {
        return None;
    }
    let ghost all = piece_views(pieces@);
    let ghost texts = text_views(host@);
    let mut out: Vec<u8> = Vec::new();
    let mut filled: usize = 0;
    let mut i: usize = 0;
    assert(all.subrange(0, 0) =~= Seq::<PieceView>::empty());
    while i < pieces.len()
        invariant
            i <= pieces@.len(),
            all == piece_views(pieces@),
            texts == text_views(host@),
            holes(all) == host@.len(),
            filled == holes(all.subrange(0, i as int)),
            filled <= i,
            out@ == joined(all.subrange(0, i as int), texts),
        decreases pieces@.len() - i,
    {
        proof {
            assert(all.subrange(0, i + 1).drop_last() =~= all.subrange(0, i as int));
            assert(all.subrange(0, i + 1).last() == pieces@[i as int]@);
            lemma_holes_prefix(all, i + 1);
        }
        match &pieces[i] {
            Piece::Text(text) => {
                push_bytes(&mut out, text.as_slice());
            },
            _ => {
                push_bytes(&mut out, host[filled].as_slice());
                filled += 1;
            },
        }
        i += 1;
    }
    assert(all.subrange(0, all.len() as int) =~= all);
    Some(out)
}


/// The output that the format at an address gives, in the `printf` dialect,
/// with the arguments at a cursor and the host's texts.
pub open spec fn output_of(env: &Environment, format: int, args: VaList, host: Seq<Seq<u8>>) -> Result<
    Seq<u8>,
    PrintfError,
> {
    match env.mem.cstr_result(format) {
        Err(e) => Err(PrintfError::Mem(e)),
        Ok(fmt) => match formatted(fmt, false, env, args) {
            Err(e) => Err(e),
            Ok(pieces) => match assembled(pieces, host) {
                None => Err(PrintfError::HostTextMismatch),
                Some(out) => Ok(out),
            },
        },
    }
}

/// Formats, in the `printf` dialect, with a format that lies in guest memory,
/// and joins the outcome with the host's texts.
pub fn format_output(env: &Environment, format: ConstPtr<u8>, args: VaList, host: &Vec<Vec<u8>>) -> (res:
    Result<Vec<u8>, PrintfError>)
    requires
        env.wf(),
    ensures
        match res {
            Ok(out) => output_of(env, format@, args, text_views(host@)) == Ok::<
                Seq<u8>,
                PrintfError,
            >(out@),
            Err(e) => output_of(env, format@, args, text_views(host@)) == Err::<
                Seq<u8>,
                PrintfError,
            >(e),
        },
{
    let fmt = match env.mem.cstr_at(format) {
        Ok(fmt) => fmt,
        Err(e) => {
            return Err(PrintfError::Mem(e));
        },
    };
    let pieces = printf_inner::<false>(env, fmt, args)?;
    match assemble(&pieces, host) {
        Some(out) => Ok(out),
        None => Err(PrintfError::HostTextMismatch),
    }
}

/// What is stored for an output where there is room for `n` bytes: as much
/// of the output as leaves room for the terminator, and the terminator.
pub open spec fn truncated(out: Seq<u8>, n: int) -> Seq<u8> {
    if n - 1 < out.len() {
        out.subrange(0, n - 1).push(NUL)
    } else {
        out.push(NUL)
    }
}

/// What storing an output of `len` bytes through `dest`, where `room` bytes
/// have to be writable, is answered with.
pub open spec fn store_result(mem: &Mem, dest: int, room: int, len: int) -> Result<
    i32,
    PrintfError,
> {
    if room == 0 {
        Err(PrintfError::NoRoom)
    } else if len > i32::MAX {
        Err(PrintfError::TooLong)
    } else {
        match mem.access_result(dest, room) {
            Err(e) => Err(PrintfError::Mem(e)),
            Ok(_) => Ok(len as i32),
        }
    }
}

/// Stores `data` through `dest` after checking that `room` bytes are
/// writable there, and answers the length of the output.
fn store(mem: &mut Mem, dest: MutPtr<u8>, room: usize, data: &Vec<u8>, len: usize) -> (res: Result<
    i32,
    PrintfError,
>)
    requires
        old(mem).wf(),
        data@.len() <= room,
    ensures
        final(mem).wf(),
        final(mem).records() == old(mem).records(),
        final(mem).brk() == old(mem).brk(),
        res == store_result(old(mem), dest@, room as int, len as int),
        res is Ok ==> final(mem).contents() == overwrite(old(mem).contents(), dest@, data@),
        res is Err ==> final(mem).contents() == old(mem).contents(),
{
    if room == 0 {
        return Err(PrintfError::NoRoom);
    }
    if len > 0x7fff_ffff {
        return Err(PrintfError::TooLong);
    }
    if room > 0xffff_ffff {
        proof {
            mem.lemma_ranges(dest@, room as int);
        }
        return Err(PrintfError::Mem(MemError::OutOfBounds));
    }
    match mem.check_access(dest.to_bits(), room as u32) {
        Ok(_) => {},
        Err(e) => {
            return Err(PrintfError::Mem(e));
        },
    }
    proof {
        let i = choose|i: int|
            0 <= i < mem.records().len() && (#[trigger] mem.records()[i]).live
                && crate::mem::record_covers(mem.records()[i], dest@, room as int);
        assert(crate::mem::record_covers(mem.records()[i], dest@, data@.len() as int));
    }
    let written = mem.write_bytes(dest, data.as_slice());
    assert(written is Ok);
    Ok(len as i32)
}

/// `vsnprintf`: formats and stores as much of the output as fits `n` bytes,
/// terminator included. All `n` bytes have to be writable. Answers the length
/// of the whole output.
pub fn vsnprintf(
    env: &mut Environment,
    dest: MutPtr<u8>,
    n: GuestUSize,
    format: ConstPtr<u8>,
    arg: VaList,
    host: &Vec<Vec<u8>>,
) -> (res: Result<i32, PrintfError>)
    requires
        old(env).wf(),
    ensures
        final(env).wf(),
        final(env).kept_but_contents(old(env)),
        res == match output_of(old(env), format@, arg, text_views(host@)) {
            Err(e) => Err::<i32, PrintfError>(e),
            Ok(out) => store_result(&old(env).mem, dest@, n as int, out.len() as int),
        },
        match res {
            Ok(_) => final(env).mem.contents() == overwrite(
                old(env).mem.contents(),
                dest@,
                truncated(output_of(old(env), format@, arg, text_views(host@)).unwrap(), n as int),
            ),
            Err(_) => final(env).mem.contents() == old(env).mem.contents(),
        },
{
    let out = format_output(env, format, arg, host)?;
    if n == 0 {
        return Err(PrintfError::NoRoom);
    }
    let len = out.len();
    let mut data = out;
    if ((n - 1) as usize) < len {
        data.truncate((n - 1) as usize);
    }
    data.push(NUL);
    store(&mut env.mem, dest, n as usize, &data, len)
}

/// `snprintf`: [`vsnprintf`] for the variable arguments of the call.
pub fn snprintf(
    env: &mut Environment,
    dest: MutPtr<u8>,
    n: GuestUSize,
    format: ConstPtr<u8>,
    args: DotDotDot,
    host: &Vec<Vec<u8>>,
) -> (res: Result<i32, PrintfError>)
    requires
        old(env).wf(),
    ensures
        final(env).wf(),
        final(env).kept_but_contents(old(env)),
        res == match output_of(old(env), format@, args.args, text_views(host@)) {
            Err(e) => Err::<i32, PrintfError>(e),
            Ok(out) => store_result(&old(env).mem, dest@, n as int, out.len() as int),
        },
        match res {
            Ok(_) => final(env).mem.contents() == overwrite(
                old(env).mem.contents(),
                dest@,
                truncated(
                    output_of(old(env), format@, args.args, text_views(host@)).unwrap(),
                    n as int,
                ),
            ),
            Err(_) => final(env).mem.contents() == old(env).mem.contents(),
        },
{
    vsnprintf(env, dest, n, format, args.start(), host)
}

/// `vsprintf`: formats and stores the whole output and its terminator.
/// Answers the length of the output.
pub fn vsprintf(
    env: &mut Environment,
    dest: MutPtr<u8>,
    format: ConstPtr<u8>,
    arg: VaList,
    host: &Vec<Vec<u8>>,
) -> (res: Result<i32, PrintfError>)
    requires
        old(env).wf(),
    ensures
        final(env).wf(),
        final(env).kept_but_contents(old(env)),
        res == match output_of(old(env), format@, arg, text_views(host@)) {
            Err(e) => Err::<i32, PrintfError>(e),
            Ok(out) => store_result(&old(env).mem, dest@, out.len() as int + 1, out.len() as int),
        },
        match res {
            Ok(_) => final(env).mem.contents() == overwrite(
                old(env).mem.contents(),
                dest@,
                output_of(old(env), format@, arg, text_views(host@)).unwrap().push(NUL),
            ),
            Err(_) => final(env).mem.contents() == old(env).mem.contents(),
        },
{
    let out = format_output(env, format, arg, host)?;
    let len = out.len();
    if len > 0x7fff_ffff {
        return Err(PrintfError::TooLong);
    }
    let mut data = out;
    data.push(NUL);
    store(&mut env.mem, dest, len + 1, &data, len)
}

/// `sprintf`: [`vsprintf`] for the variable arguments of the call.
pub fn sprintf(
    env: &mut Environment,
    dest: MutPtr<u8>,
    format: ConstPtr<u8>,
    args: DotDotDot,
    host: &Vec<Vec<u8>>,
) -> (res: Result<i32, PrintfError>)
    requires
        old(env).wf(),
    ensures
        final(env).wf(),
        final(env).kept_but_contents(old(env)),
        res == match output_of(old(env), format@, args.args, text_views(host@)) {
            Err(e) => Err::<i32, PrintfError>(e),
            Ok(out) => store_result(&old(env).mem, dest@, out.len() as int + 1, out.len() as int),
        },
        match res {
            Ok(_) => final(env).mem.contents() == overwrite(
                old(env).mem.contents(),
                dest@,
                output_of(old(env), format@, args.args, text_views(host@)).unwrap().push(NUL),
            ),
            Err(_) => final(env).mem.contents() == old(env).mem.contents(),
        },
{
    vsprintf(env, dest, format, args.start(), host)
}


/// A number that `sscanf` has read, and where it is to go.
#[derive(Clone, Copy, Debug)]
pub struct Store {
    pub target: MutPtr<i32>,
    pub value: i32,
}

/// What scanning gives: the numbers to store, in order, and the value to
/// answer.
pub type Scan = (Seq<Store>, int);

/// A list of stores before what the rest of a scan gives.
pub open spec fn prepend_stores(before: Seq<Store>, rest: Result<Scan, PrintfError>) -> Result<
    Scan,
    PrintfError,
> {
    match rest {
        Ok((after, answer)) => Ok((before + after, answer)),
        Err(e) => Err(e),
    }
}

/// What scanning `src` from `j` on gives under the format from `i` on, with
/// `matched` conversions done so far. A byte of the format other than `%` has
/// to stand in the source; at the first that does not, the scan ends and
/// answers one less than the number of conversions done. `%d` reads a run of
/// digits, which may be empty, and takes the address for the number from the
/// arguments. A scan that reaches the end of the format answers the number
/// of conversions done.
pub open spec fn scanned(
    fmt: Seq<u8>,
    src: Seq<u8>,
    i: int,
    j: int,
    env: &Environment,
    args: VaList,
    matched: int,
) -> Result<Scan, PrintfError>
    decreases fmt.len() - i,
{
    if char_at(fmt, i) == NUL {
        Ok((Seq::empty(), matched))
    } else if char_at(fmt, i) != PERCENT {
        if char_at(src, j) != char_at(fmt, i) {
            Ok((Seq::empty(), matched - 1))
        } else {
            scanned(fmt, src, i + 1, j + 1, env, args, matched)
        }
    } else if char_at(fmt, i + 1) != LOWER_D {
        Err(PrintfError::UnknownSpecifier)
    } else if digits_value(src, j, digits_end(src, j)) > i32::MAX {
        Err(PrintfError::Overflow)
    } else {
        match fetched::<ConstPtr<i32>>(env, args) {
            Err(e) => Err(e),
            Ok((target, rest)) => prepend_stores(
                seq![
                    Store {
                        target: MutPtr { addr: target.addr, pointee: core::marker::PhantomData },
                        value: digits_value(src, j, digits_end(src, j)) as i32,
                    },
                ],
                scanned(fmt, src, i + 2, digits_end(src, j), env, rest, matched + 1),
            ),
        }
    }
}

/// What checking the targets of a list of stores is answered with: the error
/// of the first that cannot be written.
pub open spec fn stores_result(mem: &Mem, stores: Seq<Store>) -> Result<(), MemError>
    decreases stores.len(),
{
    if stores.len() == 0 {
        Ok(())
    } else {
        match stores_result(mem, stores.drop_last()) {
            Err(e) => Err(e),
            Ok(_) => mem.access_result(stores.last().target@, 4),
        }
    }
}

/// Guest memory after a list of stores, first store first.
pub open spec fn stored(contents: Seq<u8>, stores: Seq<Store>) -> Seq<u8>
    decreases stores.len(),
{
    if stores.len() == 0 {
        contents
    } else {
        overwrite(
            stored(contents, stores.drop_last()),
            stores.last().target@,
            u32_le(stores.last().value as u32),
        )
    }
}

/// Once a target of a part of a list of stores cannot be written, the check
/// of the whole list is answered with that target's error.
pub proof fn lemma_stores_error_persists(mem: &Mem, stores: Seq<Store>, i: int)
    requires
        0 <= i <= stores.len(),
        stores_result(mem, stores.subrange(0, i)) is Err,
    ensures
        stores_result(mem, stores) == stores_result(mem, stores.subrange(0, i)),
    decreases stores.len() - i,
{
    if i == stores.len() {
        assert(stores.subrange(0, i) =~= stores);
    } else {
        assert(stores.subrange(0, i + 1).drop_last() =~= stores.subrange(0, i));
        lemma_stores_error_persists(mem, stores, i + 1);
    }
}

/// Scans a source under a format, taking the addresses for what it reads
/// from the arguments. Nothing is written.
pub fn scan(fmt: &[u8], src: &[u8], env: &Environment, args: VaList) -> (res: Result<
    (Vec<Store>, i32),
    PrintfError,
>)
    requires
        env.wf(),
        fmt@.len() <= u32::MAX,
    ensures
        match res {
            Ok((stores, answer)) => scanned(fmt@, src@, 0, 0, env, args, 0) == Ok::<
                Scan,
                PrintfError,
            >((stores@, answer as int)),
            Err(e) => scanned(fmt@, src@, 0, 0, env, args, 0) == Err::<Scan, PrintfError>(e),
        },
{
    let ghost total = scanned(fmt@, src@, 0, 0, env, args, 0);
    let mut stores: Vec<Store> = Vec::new();
    let mut cursor = args;
    let mut matched: i32 = 0;
    let mut i: usize = 0;
    let mut j: usize = 0;
    proof {
        match total {
            Ok((found, _)) => {
                assert(Seq::<Store>::empty() + found =~= found);
            },
            Err(_) => {},
        }
    }
    loop
        invariant
            env.wf(),
            fmt@.len() <= u32::MAX,
            i <= fmt@.len(),
            j <= src@.len(),
            0 <= matched,
            2 * matched <= i,
            total == scanned(fmt@, src@, 0, 0, env, args, 0),
            total == prepend_stores(
                stores@,
                scanned(fmt@, src@, i as int, j as int, env, cursor, matched as int),
            ),
        decreases fmt@.len() - i,
    {
        if i >= fmt.len() || fmt[i] == NUL {
            assert(stores@ + Seq::<Store>::empty() =~= stores@);
            return Ok((stores, matched));
        }
        if fmt[i] != PERCENT {
            if j >= src.len() || src[j] != fmt[i] {
                assert(stores@ + Seq::<Store>::empty() =~= stores@);
                return Ok((stores, matched - 1));
            }
            i += 1;
            j += 1;
        } else {
            if i + 1 >= fmt.len() || fmt[i + 1] != LOWER_D {
                return Err(PrintfError::UnknownSpecifier);
            }
            let (end, value) = scan_number(src, j, 0x7fff_ffff);
            let v: i32 = match value {
                Some(v) => v as i32,
                None => {
                    return Err(PrintfError::Overflow);
                },
            };
            let (target, rest) = fetch::<ConstPtr<i32>>(env, cursor)?;
            let ghost before = stores@;
            let store = Store { target: target.cast_mut(), value: v };
            stores.push(store);
            proof {
                assert(stores@ =~= before + seq![store]);
                match scanned(fmt@, src@, i + 2, end as int, env, rest, matched + 1) {
                    Ok((found, _)) => {
                        assert(before + (seq![store] + found) =~= (before + seq![store]) + found);
                    },
                    Err(_) => {},
                }
            }
            cursor = rest;
            matched += 1;
            i += 2;
            j = end;
        }
    }
}

/// `sscanf`: scans the string at `src` under the format at `format` and
/// stores what it reads through the pointers among the arguments. Both
/// strings are read before anything is stored, and nothing is stored unless
/// every target can be written.
pub fn sscanf(env: &mut Environment, src: ConstPtr<u8>, format: ConstPtr<u8>, args: DotDotDot) -> (res:
    Result<i32, PrintfError>)
    requires
        old(env).wf(),
    ensures
        final(env).wf(),
        final(env).kept_but_contents(old(env)),
        res == sscanf_result(old(env), src@, format@, args.args),
        match res {
            Ok(_) => final(env).mem.contents() == stored(
                old(env).mem.contents(),
                sscanf_scan(old(env), src@, format@, args.args).unwrap().0,
            ),
            Err(_) => final(env).mem.contents() == old(env).mem.contents(),
        },
{
    let fmt = match env.mem.cstr_at(format) {
        Ok(fmt) => bytes_to_vec(fmt),
        Err(e) => {
            return Err(PrintfError::Mem(e));
        },
    };
    let text = match env.mem.cstr_at(src) {
        Ok(text) => bytes_to_vec(text),
        Err(e) => {
            return Err(PrintfError::Mem(e));
        },
    };
    proof {
        env.mem.lemma_cstr_result(format@);
    }
    let (stores, answer) = scan(fmt.as_slice(), text.as_slice(), env, args.start())?;
    let mut k: usize = 0;
    assert(stores@.subrange(0, 0) =~= Seq::<Store>::empty());
    while k < stores.len()
        invariant
            env.wf(),
            *env == *old(env),
            k <= stores@.len(),
            sscanf_scan(old(env), src@, format@, args.args) == Ok::<Scan, PrintfError>(
                (stores@, answer as int),
            ),
            stores_result(&env.mem, stores@.subrange(0, k as int)) is Ok,
            forall|m: int|
                0 <= m < k ==> env.mem.access_result((#[trigger] stores@[m]).target@, 4) is Ok,
        decreases stores@.len() - k,
    {
        proof {
            assert(stores@.subrange(0, k + 1).drop_last() =~= stores@.subrange(0, k as int));
            assert(stores@.subrange(0, k + 1).last() == stores@[k as int]);
        }
        match env.mem.check_access(stores[k].target.to_bits(), 4) {
            Ok(_) => {},
            Err(e) => {
                proof {
                    lemma_stores_error_persists(&env.mem, stores@, k + 1);
                }
                return Err(PrintfError::Mem(e));
            },
        }
        k += 1;
    }
    assert(stores@.subrange(0, stores@.len() as int) =~= stores@);
    let mut k: usize = 0;
    while k < stores.len()
        invariant
            env.wf(),
            env.kept_but_contents(old(env)),
            k <= stores@.len(),
            sscanf_scan(old(env), src@, format@, args.args) == Ok::<Scan, PrintfError>(
                (stores@, answer as int),
            ),
            stores_result(&old(env).mem, stores@) is Ok,
            env.mem.contents() == stored(old(env).mem.contents(), stores@.subrange(0, k as int)),
            forall|m: int|
                0 <= m < stores@.len() ==> old(env).mem.access_result(
                    (#[trigger] stores@[m]).target@,
                    4,
                ) is Ok,
        decreases stores@.len() - k,
    {
        proof {
            assert(stores@.subrange(0, k + 1).drop_last() =~= stores@.subrange(0, k as int));
            assert(stores@.subrange(0, k + 1).last() == stores@[k as int]);
        }
        let written = env.mem.write(stores[k].target, stores[k].value);
        assert(written is Ok);
        k += 1;
    }
    Ok(answer)
}

/// What the scan of `sscanf` gives.
pub open spec fn sscanf_scan(env: &Environment, src: int, format: int, args: VaList) -> Result<
    Scan,
    PrintfError,
> {
    match env.mem.cstr_result(format) {
        Err(e) => Err(PrintfError::Mem(e)),
        Ok(fmt) => match env.mem.cstr_result(src) {
            Err(e) => Err(PrintfError::Mem(e)),
            Ok(text) => scanned(fmt, text, 0, 0, env, args, 0),
        },
    }
}

/// What `sscanf` is answered with.
pub open spec fn sscanf_result(env: &Environment, src: int, format: int, args: VaList) -> Result<
    i32,
    PrintfError,
> {
    match sscanf_scan(env, src, format, args) {
        Err(e) => Err(e),
        Ok((stores, answer)) => match stores_result(&env.mem, stores) {
            Err(e) => Err(PrintfError::Mem(e)),
            Ok(_) => Ok(answer as i32),
        },
    }
}

} // verus!
