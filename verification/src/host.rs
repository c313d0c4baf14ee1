//! What a template host puts in front of templates: the environment variables it
//! exposes, the theme colour tokens, and which template source a configuration selects.

use std::collections::BTreeMap;
use vstd::prelude::*;
use crate::chars::{
    chars_of, decimal, extend_str, lemma_decimal_parses, lemma_digits_lack, lemma_split_join,
    lemma_split_single, push_decimal, split_chars, split_spec, string_of, sub_chars, views,
};
use crate::filters::{color_escape_spec, channel_text, has_prefix, palette_index, rgb_channels};
use crate::RenderError;

verus! {

broadcast use vstd::std_specs::btree::group_btree_axioms;

/// Environment variables a host exposes when the configuration names none.
pub open spec fn default_variable_names() -> Seq<Seq<char>> {
    seq!["TZ"@, "LANG"@, "TERM"@]
}

/// Whether `c` is white space as std's `char::is_whitespace` defines it (the Unicode
/// `White_Space` property).
pub open spec fn is_white_space(c: char) -> bool {
    ('\u{9}' <= c <= '\u{d}') || c == ' ' || c == '\u{85}' || c == '\u{a0}' || c == '\u{1680}'
        || ('\u{2000}' <= c <= '\u{200a}') || c == '\u{2028}' || c == '\u{2029}' || c == '\u{202f}'
        || c == '\u{205f}' || c == '\u{3000}'
}

fn white_space(c: char) -> (r: bool)
    ensures
        r == is_white_space(c),
{
    ('\u{9}' <= c && c <= '\u{d}') || c == ' ' || c == '\u{85}' || c == '\u{a0}' || c == '\u{1680}'
        || ('\u{2000}' <= c && c <= '\u{200a}') || c == '\u{2028}' || c == '\u{2029}' || c == '\u{202f}'
        || c == '\u{205f}' || c == '\u{3000}'
}

/// `s` without leading white space.
pub open spec fn trim_start(s: Seq<char>) -> Seq<char>
    decreases s.len(),
{
    if s.len() > 0 && is_white_space(s[0]) { trim_start(s.skip(1)) } else { s }
}

/// `s` without trailing white space.
pub open spec fn trim_end(s: Seq<char>) -> Seq<char>
    decreases s.len(),
{
    if s.len() > 0 && is_white_space(s.last()) { trim_end(s.drop_last()) } else { s }
}

/// `s` without leading and trailing white space (std `str::trim`).
pub open spec fn trim_spec(s: Seq<char>) -> Seq<char> {
    trim_end(trim_start(s))
}

/// Removes leading and trailing white space.
pub fn trim(s: &[char]) -> (r: Vec<char>)
    ensures
        r@ == trim_spec(s@),
{
    let mut i: usize = 0;
    proof {
        assert(s@.skip(0) =~= s@);
    }
    while i < s.len() && white_space(s[i])
        invariant
            i <= s@.len(),
            trim_start(s@) == trim_start(s@.skip(i as int)),
        decreases s@.len() - i,
    {
        proof {
            assert(s@.skip(i as int).skip(1) =~= s@.skip(i + 1));
        }
        i += 1;
    }
    let mut j: usize = s.len();
    proof {
        assert(trim_start(s@) == s@.skip(i as int));
        assert(s@.subrange(i as int, j as int) =~= s@.skip(i as int));
    }
    while j > i && white_space(s[j - 1])
        invariant
            i <= j <= s@.len(),
            trim_spec(s@) == trim_end(s@.subrange(i as int, j as int)),
        decreases j,
    {
        proof {
            assert(s@.subrange(i as int, j as int).drop_last() =~= s@.subrange(i as int, j - 1));
        }
        j -= 1;
    }
    sub_chars(s, i, j)
}

/// The non-empty trimmed pieces, in order.
pub open spec fn trimmed_names(pieces: Seq<Seq<char>>) -> Seq<Seq<char>>
    decreases pieces.len(),
{
    if pieces.len() == 0 {
        Seq::empty()
    } else {
        let front = trimmed_names(pieces.drop_last());
        let t = trim_spec(pieces.last());
        if t.len() == 0 { front } else { front.push(t) }
    }
}

/// The environment variable names a host exposes: the `env_vars` setting split at commas,
/// each name trimmed and empty ones dropped; `TZ`, `LANG` and `TERM` without a setting.
pub open spec fn variable_names_spec(setting: Option<Seq<char>>) -> Seq<Seq<char>> {
    match setting {
        None => default_variable_names(),
        Some(s) => trimmed_names(split_spec(s, ',')),
    }
}

/// The texts of a vector of strings.
pub open spec fn string_views(v: Seq<String>) -> Seq<Seq<char>> {
    v.map_values(|s: String| s@)
}

/// The environment variable names a host exposes for an `env_vars` setting.
pub fn variable_names(setting: Option<&str>) -> (r: Vec<String>)
    ensures
        string_views(r@) == variable_names_spec(match setting { Some(s) => Some(s@), None => None }),
{
    match setting {
        None => {
            let r: Vec<String> = vec![
                string_of(chars_of("TZ").as_slice()),
                string_of(chars_of("LANG").as_slice()),
                string_of(chars_of("TERM").as_slice()),
            ];
            proof {
                assert(string_views(r@) =~= default_variable_names());
            }
            r
        },
        Some(s) => {
            let text = chars_of(s);
            let pieces = split_chars(text.as_slice(), ',');
            let ghost pv = views(pieces@);
            let mut out: Vec<String> = Vec::new();
            let mut k: usize = 0;
            proof {
                assert(pv.take(0) =~= Seq::<Seq<char>>::empty());
            }
            while k < pieces.len()
                invariant
                    k <= pieces@.len(),
                    pv == views(pieces@),
                    string_views(out@) == trimmed_names(pv.take(k as int)),
                decreases pieces@.len() - k,
            {
                let t = trim(pieces[k].as_slice());
                proof {
                    assert(pv.take(k + 1).drop_last() =~= pv.take(k as int));
                    assert(pv.take(k + 1).last() == pieces@[k as int]@);
                }
                if t.len() > 0 {
                    let ghost before = out@;
                    out.push(string_of(t.as_slice()));
                    proof {
                        assert(string_views(out@) =~= string_views(before).push(t@));
                    }
                }
                k += 1;
            }
            proof {
                assert(pv.take(pv.len() as int) =~= pv);
            }
            out
        },
    }
}

/// The environment variables exposed to templates as `env`.
#[derive(Clone, Debug, PartialEq, Eq)]
pub struct TemplateEnvironment {
    values: BTreeMap<String, String>,
}

impl View for TemplateEnvironment {
    type V = Map<String, String>;

    closed spec fn view(&self) -> Map<String, String> {
        self.values@
    }
}

impl TemplateEnvironment {
    /// An environment holding exactly the given variables.
    pub fn from_values(values: BTreeMap<String, String>) -> (r: Self)
        ensures
            r@ == values@,
    {
        TemplateEnvironment { values }
    }

    /// The exposed variables.
    pub fn values(&self) -> (r: &BTreeMap<String, String>)
        ensures
            r@ == self@,
    {
        &self.values
    }
}

/// A Zellij palette colour: a true colour or an index into the 256-colour palette.
#[derive(Clone, Copy, Debug, PartialEq, Eq, Structural)]
pub enum ThemeColor {
    Rgb(u8, u8, u8),
    EightBit(u8),
}

/// The token a template sees for a palette colour: `rgb:R,G,B` or `index:N`, in decimal.
pub open spec fn color_token_spec(c: ThemeColor) -> Seq<char> {
    match c {
        ThemeColor::Rgb(r, g, b) => "rgb:"@ + decimal(r as nat) + seq![','] + decimal(g as nat) + seq![',']
            + decimal(b as nat),
        ThemeColor::EightBit(i) => "index:"@ + decimal(i as nat),
    }
}

/// The template token for a palette colour.
pub fn color_token(c: ThemeColor) -> (r: String)
    ensures
        r@ == color_token_spec(c),
{
    let mut v: Vec<char> = Vec::new();
    match c {
        ThemeColor::Rgb(r, g, b) => {
            extend_str(&mut v, "rgb:");
            push_decimal(&mut v, r as u128);
            v.push(',');
            push_decimal(&mut v, g as u128);
            v.push(',');
            push_decimal(&mut v, b as u128);
            proof {
                assert(v@ =~= color_token_spec(c));
            }
        },
        ThemeColor::EightBit(i) => {
            extend_str(&mut v, "index:");
            push_decimal(&mut v, i as u128);
        },
    }
    string_of(v.as_slice())
}

/// The Zellij style colours a theme is made from: unselected text (its base and
/// background), the selected ribbon (base and background), and the unselected ribbon
/// (base, background, and its third emphasis for alerts).
#[derive(Clone, Copy, Debug, PartialEq, Eq, Structural)]
pub struct ThemeColors {
    pub text: ThemeColor,
    pub background: ThemeColor,
    pub active_text: ThemeColor,
    pub active_background: ThemeColor,
    pub muted_text: ThemeColor,
    pub muted_background: ThemeColor,
    pub alert: ThemeColor,
}

/// The colour tokens exposed to templates as `theme`.
#[derive(Clone, Debug, Default, PartialEq, Eq)]
pub struct TemplateTheme {
    pub text: String,
    pub background: String,
    pub active_text: String,
    pub active_background: String,
    pub muted_text: String,
    pub muted_background: String,
    pub alert: String,
}

impl TemplateTheme {
    /// The theme tokens for the given style colours.
    pub fn from_colors(colors: &ThemeColors) -> (r: Self)
        ensures
            r.text@ == color_token_spec(colors.text),
            r.background@ == color_token_spec(colors.background),
            r.active_text@ == color_token_spec(colors.active_text),
            r.active_background@ == color_token_spec(colors.active_background),
            r.muted_text@ == color_token_spec(colors.muted_text),
            r.muted_background@ == color_token_spec(colors.muted_background),
            r.alert@ == color_token_spec(colors.alert),
    {
        TemplateTheme {
            text: color_token(colors.text),
            background: color_token(colors.background),
            active_text: color_token(colors.active_text),
            active_background: color_token(colors.active_background),
            muted_text: color_token(colors.muted_text),
            muted_background: color_token(colors.muted_background),
            alert: color_token(colors.alert),
        }
    }
}

/// The escape that the colour filters produce for a palette colour.
pub open spec fn palette_escape(c: ThemeColor, background: bool) -> Seq<char> {
    match c {
        ThemeColor::Rgb(r, g, b) => "\u{1b}["@ + channel_text(background) + ";2;"@ + decimal(r as nat) + ";"@
            + decimal(g as nat) + ";"@ + decimal(b as nat) + "m"@,
        ThemeColor::EightBit(i) => "\u{1b}["@ + channel_text(background) + ";5;"@ + decimal(i as nat) + "m"@,
    }
}

/// Law: every theme token is accepted by the `fg` and `bg` filters, which select exactly
/// the palette colour it was made from.
pub proof fn lemma_theme_tokens_are_colors(c: ThemeColor, background: bool)
    ensures
        color_escape_spec(color_token_spec(c), background) == Some(palette_escape(c, background)),
{
    reveal_strlit("rgb:");
    reveal_strlit("index:");
    let t = color_token_spec(c);
    match c {
        ThemeColor::Rgb(r, g, b) => {
            let (dr, dg, db) = (decimal(r as nat), decimal(g as nat), decimal(b as nat));
            assert(t.take(4) =~= "rgb:"@);
            assert(t.skip(4) =~= dr + seq![','] + dg + seq![','] + db);
            lemma_digits_lack(r as nat, ',');
            lemma_digits_lack(g as nat, ',');
            lemma_digits_lack(b as nat, ',');
            lemma_split_single(dr, ',');
            lemma_split_join(dr, dg, ',');
            lemma_split_join(dr + seq![','] + dg, db, ',');
            assert(split_spec(t.skip(4), ',') =~= seq![dr, dg, db]);
            lemma_decimal_parses(r as nat, 255);
            lemma_decimal_parses(g as nat, 255);
            lemma_decimal_parses(b as nat, 255);
            assert(rgb_channels(t) == Some(seq![dr, dg, db]));
        },
        ThemeColor::EightBit(i) => {
            assert(!has_prefix(t, "rgb:"@)) by {
                if has_prefix(t, "rgb:"@) {
                    assert(t[0] == "rgb:"@[0]);
                }
            }
            assert(t.take(6) =~= "index:"@);
            assert(t.skip(6) =~= decimal(i as nat));
            lemma_decimal_parses(i as nat, 255);
            assert(palette_index(t) == Some(i as nat));
        },
    }
}

/// Where a host's template comes from.
#[derive(Clone, Debug, PartialEq, Eq)]
pub enum TemplateChoice {
    /// Template source given inline in the configuration.
    Inline(String),
    /// An external template file.
    File(String),
    /// The template built into the plugin.
    Embedded,
}

/// The failure detail for a configuration that sets both template settings.
pub open spec fn conflicting_templates_detail() -> Seq<char> {
    "template and template_file cannot be configured together"@
}

/// Chooses the template source from the `template` and `template_file` settings: inline
/// source, an external file, or the embedded template; both together are refused.
pub fn template_choice(template: Option<&str>, template_file: Option<&str>) -> (r: Result<TemplateChoice, RenderError>)
    ensures
        match (template, template_file) {
            (Some(_), Some(_)) => r matches Err(e) && e is InvalidOperation
                && e->InvalidOperation_0@ == conflicting_templates_detail(),
            (Some(t), None) => r matches Ok(c) && c matches TemplateChoice::Inline(s) && s@ == t@,
            (None, Some(p)) => r matches Ok(c) && c matches TemplateChoice::File(s) && s@ == p@,
            (None, None) => r matches Ok(c) && c is Embedded,
        },
{
    match (template, template_file) {
        (Some(_), Some(_)) => {
            let v = chars_of("template and template_file cannot be configured together");
            Err(RenderError::InvalidOperation(string_of(v.as_slice())))
        },
        (Some(t), None) => Ok(TemplateChoice::Inline(string_of(chars_of(t).as_slice()))),
        (None, Some(p)) => Ok(TemplateChoice::File(string_of(chars_of(p).as_slice()))),
        (None, None) => Ok(TemplateChoice::Embedded),
    }
}

/// How often an external template is checked for changes, in nanoseconds.
pub const EXTERNAL_TEMPLATE_REFRESH: u64 = 1_000_000_000;

} // verus!
