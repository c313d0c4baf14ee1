//! Template filters: bold and dim text, theme colour escapes, and clock pattern helpers.

use vstd::prelude::*;
use crate::chars::{
    all_digits, chars_of, decimal, digits_value, extend_chars, extend_str, parse_u8, push_decimal,
    split_chars, split_spec, starts_with_str, string_of, sub_chars, views,
};
use crate::error::LayoutError;

verus! {

/// `value` between the escapes that switch bold on and off.
pub open spec fn bold_spec(value: Seq<char>) -> Seq<char> {
    "\u{1b}[1m"@ + value + "\u{1b}[22m"@
}

/// `value` between the escapes that switch dim on and off.
pub open spec fn dim_spec(value: Seq<char>) -> Seq<char> {
    "\u{1b}[2m"@ + value + "\u{1b}[22m"@
}

/// Wraps `value` in bold on/off escapes.
pub fn bold(value: &str) -> (r: String)
    ensures
        r@ == bold_spec(value@),
{
    let mut v: Vec<char> = Vec::new();
    extend_str(&mut v, "\u{1b}[1m");
    extend_str(&mut v, value);
    extend_str(&mut v, "\u{1b}[22m");
    string_of(v.as_slice())
}

/// Wraps `value` in dim on/off escapes.
pub fn dim(value: &str) -> (r: String)
    ensures
        r@ == dim_spec(value@),
{
    let mut v: Vec<char> = Vec::new();
    extend_str(&mut v, "\u{1b}[2m");
    extend_str(&mut v, value);
    extend_str(&mut v, "\u{1b}[22m");
    string_of(v.as_slice())
}

/// The SGR parameter that selects the foreground (38) or background (48) colour.
pub open spec fn channel_text(background: bool) -> Seq<char> {
    if background { "48"@ } else { "38"@ }
}

/// Whether `s` begins with `prefix`.
pub open spec fn has_prefix(s: Seq<char>, prefix: Seq<char>) -> bool {
    prefix.len() <= s.len() && s.take(prefix.len() as int) == prefix
}

/// The value of a colour channel or palette index: one or more decimal digits (no sign)
/// whose value is at most 255.
pub open spec fn decimal_byte(s: Seq<char>) -> Option<nat> {
    if s.len() > 0 && all_digits(s) && digits_value(s) <= 255 { Some(digits_value(s)) } else { None }
}

/// The three channel texts of an `rgb:R,G,B` token, each a decimal number from 0 to 255.
pub open spec fn rgb_channels(token: Seq<char>) -> Option<Seq<Seq<char>>> {
    if has_prefix(token, "rgb:"@) {
        let parts = split_spec(token.skip("rgb:"@.len() as int), ',');
        if parts.len() == 3 && decimal_byte(parts[0]) is Some && decimal_byte(parts[1]) is Some
            && decimal_byte(parts[2]) is Some {
            Some(parts)
        } else {
            None
        }
    } else {
        None
    }
}

/// The palette index of an `index:N` token, a decimal number from 0 to 255.
pub open spec fn palette_index(token: Seq<char>) -> Option<nat> {
    if has_prefix(token, "index:"@) {
        decimal_byte(token.skip("index:"@.len() as int))
    } else {
        None
    }
}

/// The escape that selects a theme colour token: `rgb:R,G,B` gives a true-colour escape that
/// repeats the channel texts as written, `index:N` a 256-colour escape with the index in
/// decimal; any other token has none.
pub open spec fn color_escape_spec(token: Seq<char>, background: bool) -> Option<Seq<char>> {
    match rgb_channels(token) {
        Some(p) => Some(
            "\u{1b}["@ + channel_text(background) + ";2;"@ + p[0] + ";"@ + p[1] + ";"@ + p[2] + "m"@,
        ),
        None => match palette_index(token) {
            Some(n) => Some("\u{1b}["@ + channel_text(background) + ";5;"@ + decimal(n) + "m"@),
            None => None,
        },
    }
}

/// Parses a colour channel or palette index: decimal digits only, at most 255.
fn parse_decimal_byte(v: &[char]) -> (r: Option<u8>)
    ensures
        match decimal_byte(v@) {
            Some(n) => r == Some(n as u8),
            None => r is None,
        },
{
    if v.len() == 0 || v[0] == '+' {
        proof {
            if v@.len() > 0 {
                assert(!crate::chars::is_digit(v@[0]));
            }
        }
        return None;
    }
    parse_u8(v)
}

fn push_channel(v: &mut Vec<char>, background: bool)
    ensures
        final(v)@ == old(v)@ + "\u{1b}["@ + channel_text(background),
{
    extend_str(v, "\u{1b}[");
    if background {
        extend_str(v, "48");
    } else {
        extend_str(v, "38");
    }
}

/// The escape sequence selecting the colour named by a theme token, for the foreground or
/// the background.
pub fn color_escape(token: &str, background: bool) -> (r: Result<String, LayoutError>)
    ensures
        match r {
            Ok(s) => color_escape_spec(token@, background) == Some(s@),
            Err(e) => e == LayoutError::InvalidColor && color_escape_spec(token@, background) is None,
        },
{
    let t = chars_of(token);
    if starts_with_str(t.as_slice(), "rgb:") {
        let plen = chars_of("rgb:").len();
        let rest = sub_chars(t.as_slice(), plen, t.len());
        proof {
            assert(rest@ =~= token@.skip("rgb:"@.len() as int));
        }
        let parts = split_chars(rest.as_slice(), ',');
        if parts.len() == 3 {
            let a = parse_decimal_byte(parts[0].as_slice());
            let b = parse_decimal_byte(parts[1].as_slice());
            let c = parse_decimal_byte(parts[2].as_slice());
            proof {
                assert(views(parts@)[0] == parts@[0]@);
                assert(views(parts@)[1] == parts@[1]@);
                assert(views(parts@)[2] == parts@[2]@);
            }
            if a.is_some() && b.is_some() && c.is_some() {
                let mut v: Vec<char> = Vec::new();
                push_channel(&mut v, background);
                extend_str(&mut v, ";2;");
                extend_chars(&mut v, parts[0].as_slice());
                extend_str(&mut v, ";");
                extend_chars(&mut v, parts[1].as_slice());
                extend_str(&mut v, ";");
                extend_chars(&mut v, parts[2].as_slice());
                extend_str(&mut v, "m");
                return Ok(string_of(v.as_slice()));
            }
        }
    }
    if starts_with_str(t.as_slice(), "index:") {
        let plen = chars_of("index:").len();
        let rest = sub_chars(t.as_slice(), plen, t.len());
        proof {
            assert(rest@ =~= token@.skip("index:"@.len() as int));
        }
        match parse_decimal_byte(rest.as_slice()) {
            Some(n) => {
                let mut v: Vec<char> = Vec::new();
                push_channel(&mut v, background);
                extend_str(&mut v, ";5;");
                push_decimal(&mut v, n as u128);
                extend_str(&mut v, "m");
                return Ok(string_of(v.as_slice()));
            },
            None => {},
        }
    }
    Err(LayoutError::InvalidColor)
}

/// `value` coloured by a theme token: the colour escape, the text, and the reset of that
/// channel (39 for the foreground, 49 for the background).
pub open spec fn colored_spec(value: Seq<char>, token: Seq<char>, background: bool) -> Option<Seq<char>> {
    match color_escape_spec(token, background) {
        Some(e) => Some(e + value + (if background { "\u{1b}[49m"@ } else { "\u{1b}[39m"@ })),
        None => None,
    }
}

fn colored(value: &str, color: &str, background: bool) -> (r: Result<String, LayoutError>)
    ensures
        match r {
            Ok(s) => colored_spec(value@, color@, background) == Some(s@),
            Err(e) => e == LayoutError::InvalidColor && colored_spec(value@, color@, background) is None,
        },
{
    let escape = match color_escape(color, background) {
        Ok(e) => e,
        Err(e) => return Err(e),
    };
    let mut v = chars_of(escape.as_str());
    extend_str(&mut v, value);
    if background {
        extend_str(&mut v, "\u{1b}[49m");
    } else {
        extend_str(&mut v, "\u{1b}[39m");
    }
    Ok(string_of(v.as_slice()))
}

/// Colours the text of `value` with a theme colour token.
pub fn foreground(value: &str, color: &str) -> (r: Result<String, LayoutError>)
    ensures
        match r {
            Ok(s) => colored_spec(value@, color@, false) == Some(s@),
            Err(e) => e == LayoutError::InvalidColor && colored_spec(value@, color@, false) is None,
        },
{
    colored(value, color, false)
}

/// Colours the background behind `value` with a theme colour token.
pub fn background(value: &str, color: &str) -> (r: Result<String, LayoutError>)
    ensures
        match r {
            Ok(s) => colored_spec(value@, color@, true) == Some(s@),
            Err(e) => e == LayoutError::InvalidColor && colored_spec(value@, color@, true) is None,
        },
{
    colored(value, color, true)
}

} // verus!
