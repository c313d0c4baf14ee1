//! The template helpers' side of the markup protocol: the marker text that `Flex`,
//! `Button` and `OnOverflow` render, the validation of their arguments, and the tokens
//! that stand for recorded actions.

use vstd::prelude::*;
use crate::chars::{
    chars_of, debug_quoted, debug_text, decimal, eq_str, extend_str, is_digit, lacks, lemma_concat_lacks,
    lemma_decimal_parses, lemma_digits_lack, lemma_split_join, lemma_split_single, parse_unsigned, parse_usize,
    push_decimal, split_spec, string_of, sub_chars,
};
use crate::clock::{contains_chars, contains_text};
use crate::markup::{apply_marker_spec, marker_end, marker_seq, parse_flex_spec_spec, OpenV};
use crate::node::{Align, Basis, Direction, FlexSpec, Justify, Overflow};
use crate::{ButtonPresentation, RenderError};

verus! {

/// The `basis` argument of `Flex`: absent or `"auto"`, a cell count, or anything else.
#[derive(Clone, Copy, Debug, PartialEq, Eq, Structural)]
pub enum BasisArg {
    Auto,
    Cells(usize),
    Invalid,
}

/// The keyword arguments of a `Flex` call; absent ones take their defaults.
#[derive(Clone, Debug)]
pub struct FlexArgs {
    pub direction: Option<String>,
    pub grow: Option<usize>,
    pub shrink: Option<usize>,
    pub basis: BasisArg,
    pub gap: Option<usize>,
    pub justify: Option<String>,
    pub align: Option<String>,
    pub overflow: Option<String>,
}

/// The text of an optional string argument, or its default.
pub open spec fn text_or(v: Option<String>, default: Seq<char>) -> Seq<char> {
    match v {
        Some(s) => s@,
        None => default,
    }
}

/// A number argument, or its default.
pub open spec fn number_or(v: Option<usize>, default: usize) -> usize {
    match v {
        Some(n) => n,
        None => default,
    }
}

/// The failure detail for a `Flex` argument outside its allowed values.
pub open spec fn invalid_choice_detail(name: Seq<char>, value: Seq<char>) -> Seq<char> {
    "Flex "@ + name + " has invalid value "@ + debug_text(value)
}

/// A choice argument: accepted as written when it is one of `valid`.
pub open spec fn choice_spec(value: Seq<char>, valid: Seq<Seq<char>>, name: Seq<char>) -> Result<Seq<char>, Seq<char>> {
    if valid.contains(value) {
        Ok(value)
    } else {
        Err(invalid_choice_detail(name, value))
    }
}

/// The texts of a slice of string slices.
pub open spec fn str_views(v: Seq<&str>) -> Seq<Seq<char>> {
    v.map_values(|s: &str| s@)
}

/// Accepts `value` when it is one of `valid`; otherwise reports the `Flex` argument `name`
/// with the value in `Debug` form.
pub fn parse_choice(value: &str, valid: &[&str], name: &str) -> (r: Result<String, RenderError>)
    ensures
        match r {
            Ok(s) => choice_spec(value@, str_views(valid@), name@) == Ok::<Seq<char>, Seq<char>>(s@),
            Err(e) => e is InvalidOperation
                && choice_spec(value@, str_views(valid@), name@) == Err::<Seq<char>, Seq<char>>(e->InvalidOperation_0@),
        },
{
    let v = chars_of(value);
    let mut i: usize = 0;
    while i < valid.len()
        invariant
            i <= valid@.len(),
            v@ == value@,
            forall|j: int| 0 <= j < i ==> str_views(valid@)[j] != value@,
        decreases valid@.len() - i,
    {
        if eq_str(v.as_slice(), valid[i]) {
            proof {
                assert(str_views(valid@)[i as int] == value@);
            }
            return Ok(string_of(v.as_slice()));
        }
        i += 1;
    }
    let mut d = chars_of("Flex ");
    extend_str(&mut d, name);
    extend_str(&mut d, " has invalid value ");
    let q = debug_quoted(value);
    extend_str(&mut d, q.as_str());
    Err(RenderError::InvalidOperation(string_of(d.as_slice())))
}

/// Allowed `direction` values.
pub open spec fn directions() -> Seq<Seq<char>> {
    seq!["row"@, "column"@]
}

/// Allowed `justify` values.
pub open spec fn justifications() -> Seq<Seq<char>> {
    seq!["start"@, "center"@, "end"@, "space-between"@, "space-around"@]
}

/// Allowed `align` values.
pub open spec fn alignments() -> Seq<Seq<char>> {
    seq!["start"@, "center"@, "end"@, "stretch"@]
}

/// Allowed `overflow` values.
pub open spec fn overflows() -> Seq<Seq<char>> {
    seq!["normal"@, "scroll"@]
}

/// The marker fields of a `Flex` call, `|`-separated: direction, grow, shrink, basis, gap,
/// justify, align, overflow.
pub open spec fn flex_fields(d: Seq<char>, grow: nat, shrink: nat, basis: Seq<char>, gap: nat, j: Seq<char>, a: Seq<char>, o: Seq<char>) -> Seq<char> {
    let bar = seq!['|'];
    d + bar + decimal(grow) + bar + decimal(shrink) + bar + basis + bar + decimal(gap) + bar + j + bar + a + bar + o
}

/// The text of a valid basis argument.
pub open spec fn basis_text(b: BasisArg) -> Seq<char> {
    match b {
        BasisArg::Cells(n) => decimal(n as nat),
        _ => "auto"@,
    }
}

/// The opening marker a `Flex` call renders, or the failure detail for its first invalid
/// argument (checked in the order direction, basis, justify, align, overflow).
pub open spec fn flex_header_spec(args: FlexArgs) -> Result<Seq<char>, Seq<char>> {
    match choice_spec(text_or(args.direction, "row"@), directions(), "direction"@) {
        Err(e) => Err(e),
        Ok(d) => if args.basis is Invalid {
            Err("Flex basis must be auto or an integer"@)
        } else {
            match choice_spec(text_or(args.justify, "start"@), justifications(), "justify"@) {
                Err(e) => Err(e),
                Ok(j) => match choice_spec(text_or(args.align, "start"@), alignments(), "align"@) {
                    Err(e) => Err(e),
                    Ok(a) => match choice_spec(text_or(args.overflow, "normal"@), overflows(), "overflow"@) {
                        Err(e) => Err(e),
                        Ok(o) => Ok(marker_seq() + seq!['F', '|'] + flex_fields(
                            d,
                            number_or(args.grow, 0) as nat,
                            number_or(args.shrink, 1) as nat,
                            basis_text(args.basis),
                            number_or(args.gap, 0) as nat,
                            j,
                            a,
                            o,
                        ) + seq![marker_end()]),
                    },
                },
            }
        },
    }
}

fn push_marker(v: &mut Vec<char>)
    ensures
        final(v)@ == old(v)@ + marker_seq(),
{
    v.push('\u{e000}');
    v.push('Z');
    v.push('T');
    v.push(':');
    proof {
        assert(v@ =~= old(v)@ + marker_seq());
    }
}

fn choice_or(v: &Option<String>, default: &str, valid: &[&str], name: &str) -> (r: Result<String, RenderError>)
    ensures
        match r {
            Ok(s) => choice_spec(text_or(*v, default@), str_views(valid@), name@) == Ok::<Seq<char>, Seq<char>>(s@),
            Err(e) => e is InvalidOperation
                && choice_spec(text_or(*v, default@), str_views(valid@), name@) == Err::<Seq<char>, Seq<char>>(e->InvalidOperation_0@),
        },
{
    match v {
        Some(s) => parse_choice(s.as_str(), valid, name),
        None => parse_choice(default, valid, name),
    }
}

fn push_flex_fields(v: &mut Vec<char>, d: &str, grow: usize, shrink: usize, basis: BasisArg, gap: usize, j: &str, a: &str, o: &str)
    ensures
        final(v)@ == old(v)@ + flex_fields(d@, grow as nat, shrink as nat, basis_text(basis), gap as nat, j@, a@, o@),
{
    let ghost start = v@;
    let ghost bar = seq!['|'];
    extend_str(v, d);
    v.push('|');
    push_decimal(v, grow as u128);
    let ghost p1 = d@ + bar + decimal(grow as nat);
    proof { assert(v@ =~= start + p1); }
    v.push('|');
    push_decimal(v, shrink as u128);
    let ghost p2 = p1 + bar + decimal(shrink as nat);
    proof { assert(v@ =~= start + p2); }
    v.push('|');
    match basis {
        BasisArg::Cells(n) => push_decimal(v, n as u128),
        _ => extend_str(v, "auto"),
    }
    let ghost p3 = p2 + bar + basis_text(basis);
    proof { assert(v@ =~= start + p3); }
    v.push('|');
    push_decimal(v, gap as u128);
    let ghost p4 = p3 + bar + decimal(gap as nat);
    proof { assert(v@ =~= start + p4); }
    v.push('|');
    extend_str(v, j);
    let ghost p5 = p4 + bar + j@;
    proof { assert(v@ =~= start + p5); }
    v.push('|');
    extend_str(v, a);
    let ghost p6 = p5 + bar + a@;
    proof { assert(v@ =~= start + p6); }
    v.push('|');
    extend_str(v, o);
    let ghost p7 = p6 + bar + o@;
    proof { assert(v@ =~= start + p7); }
}

/// The opening marker of a `Flex` call, after checking its arguments.
pub fn flex_header(args: &FlexArgs) -> (r: Result<String, RenderError>)
    ensures
        match r {
            Ok(s) => flex_header_spec(*args) == Ok::<Seq<char>, Seq<char>>(s@),
            Err(e) => e is InvalidOperation && flex_header_spec(*args) == Err::<Seq<char>, Seq<char>>(e->InvalidOperation_0@),
        },
{
    let dirs: [&str; 2] = ["row", "column"];
    let justs: [&str; 5] = ["start", "center", "end", "space-between", "space-around"];
    let aligns: [&str; 4] = ["start", "center", "end", "stretch"];
    let overs: [&str; 2] = ["normal", "scroll"];
    proof {
        assert(str_views(dirs@) =~= directions());
        assert(str_views(justs@) =~= justifications());
        assert(str_views(aligns@) =~= alignments());
        assert(str_views(overs@) =~= overflows());
    }
    let d = match choice_or(&args.direction, "row", dirs.as_slice(), "direction") {
        Ok(d) => d,
        Err(e) => return Err(e),
    };
    if let BasisArg::Invalid = args.basis {
        let v = chars_of("Flex basis must be auto or an integer");
        return Err(RenderError::InvalidOperation(string_of(v.as_slice())));
    }
    let j = match choice_or(&args.justify, "start", justs.as_slice(), "justify") {
        Ok(j) => j,
        Err(e) => return Err(e),
    };
    let a = match choice_or(&args.align, "start", aligns.as_slice(), "align") {
        Ok(a) => a,
        Err(e) => return Err(e),
    };
    let o = match choice_or(&args.overflow, "normal", overs.as_slice(), "overflow") {
        Ok(o) => o,
        Err(e) => return Err(e),
    };
    let grow: usize = match args.grow { Some(n) => n, None => 0 };
    let shrink: usize = match args.shrink { Some(n) => n, None => 1 };
    let gap: usize = match args.gap { Some(n) => n, None => 0 };
    let mut v: Vec<char> = Vec::new();
    push_marker(&mut v);
    v.push('F');
    v.push('|');
    proof {
        assert(v@ =~= marker_seq() + seq!['F', '|']);
    }
    push_flex_fields(&mut v, d.as_str(), grow, shrink, args.basis, gap, j.as_str(), a.as_str(), o.as_str());
    v.push('\u{e001}');
    proof {
        assert(v@ =~= marker_seq() + seq!['F', '|'] + flex_fields(
            d@, grow as nat, shrink as nat, basis_text(args.basis), gap as nat, j@, a@, o@,
        ) + seq![marker_end()]);
    }
    Ok(string_of(v.as_slice()))
}

/// The closing marker of a `Flex` call.
pub open spec fn flex_close() -> Seq<char> {
    marker_seq() + seq!['/', 'F', marker_end()]
}

/// The full text of a `Flex` call: its opening marker, the rendered body, and the closing
/// marker.
pub fn flex_marker(header: &str, body: &str) -> (r: String)
    ensures
        r@ == header@ + body@ + flex_close(),
{
    let mut v = chars_of(header);
    extend_str(&mut v, body);
    push_marker(&mut v);
    v.push('/');
    v.push('F');
    v.push('\u{e001}');
    proof {
        assert(v@ =~= header@ + body@ + flex_close());
    }
    string_of(v.as_slice())
}

/// The full text of an `OnOverflow` call around its rendered body.
pub open spec fn on_overflow_spec(body: Seq<char>) -> Seq<char> {
    marker_seq() + seq!['O', marker_end()] + body + marker_seq() + seq!['/', 'O', marker_end()]
}

/// Wraps the rendered body of an `OnOverflow` call in its markers.
pub fn on_overflow_marker(body: &str) -> (r: String)
    ensures
        r@ == on_overflow_spec(body@),
{
    let mut v: Vec<char> = Vec::new();
    push_marker(&mut v);
    v.push('O');
    v.push('\u{e001}');
    extend_str(&mut v, body);
    push_marker(&mut v);
    v.push('/');
    v.push('O');
    v.push('\u{e001}');
    proof {
        assert(v@ =~= on_overflow_spec(body@));
    }
    string_of(v.as_slice())
}

/// The detail of the failure for a button label that holds layout markers.
pub open spec fn label_with_helpers_detail() -> Seq<char> {
    "Button label cannot contain layout helpers"@
}

/// Rejects a button label that holds layout markers (a layout helper rendered inside it).
pub fn check_button_label(label: &str) -> (r: Result<(), RenderError>)
    ensures
        r is Ok <==> !contains_text(label@, marker_seq()),
        r matches Err(e) ==> e is InvalidOperation && e->InvalidOperation_0@ == label_with_helpers_detail(),
{
    let l = chars_of(label);
    let m: Vec<char> = vec!['\u{e000}', 'Z', 'T', ':'];
    proof {
        assert(m@ =~= marker_seq());
    }
    if contains_chars(l.as_slice(), m.as_slice()) {
        let v = chars_of("Button label cannot contain layout helpers");
        return Err(RenderError::InvalidOperation(string_of(v.as_slice())));
    }
    Ok(())
}

/// The detail of the failure for a button without label or body.
pub open spec fn missing_label_detail() -> Seq<char> {
    "Button expects label or caller body"@
}

/// The label a button shows: the `label` argument, else its rendered body.
pub fn button_label(label: Option<String>, body: Option<String>) -> (r: Result<String, RenderError>)
    ensures
        match (label, body) {
            (Some(l), _) => r == Ok::<String, RenderError>(l),
            (None, Some(b)) => r == Ok::<String, RenderError>(b),
            (None, None) => r matches Err(e) && e is MissingArgument && e->MissingArgument_0@ == missing_label_detail(),
        },
{
    match label {
        Some(l) => Ok(l),
        None => match body {
            Some(b) => Ok(b),
            None => {
                let v = chars_of("Button expects label or caller body");
                Err(RenderError::MissingArgument(string_of(v.as_slice())))
            },
        },
    }
}

/// The header fields of a `Button` marker: the action index and the focus flag.
pub open spec fn button_fields(action_id: nat, focused: bool) -> Seq<char> {
    seq!['B', '|'] + decimal(action_id) + seq!['|', if focused { '1' } else { '0' }]
}

/// The full text of a `Button` call: its marker, the presented label, and the closing marker.
pub open spec fn button_marker_spec_text(action_id: nat, focused: bool, label: Seq<char>) -> Seq<char> {
    marker_seq() + button_fields(action_id, focused) + seq![marker_end()] + label + marker_seq() + seq!['/', 'B', marker_end()]
}

/// The markup a `Button` call renders for a recorded action and the host's presentation.
pub fn button_marker(action_id: usize, presentation: &ButtonPresentation) -> (r: String)
    ensures
        r@ == button_marker_spec_text(action_id as nat, presentation.focused, presentation.label@),
{
    let mut v: Vec<char> = Vec::new();
    push_marker(&mut v);
    v.push('B');
    v.push('|');
    push_decimal(&mut v, action_id as u128);
    v.push('|');
    v.push(if presentation.focused { '1' } else { '0' });
    v.push('\u{e001}');
    extend_str(&mut v, presentation.label.as_str());
    push_marker(&mut v);
    v.push('/');
    v.push('B');
    v.push('\u{e001}');
    proof {
        assert(v@ =~= button_marker_spec_text(action_id as nat, presentation.focused, presentation.label@));
    }
    string_of(v.as_slice())
}

/// The prefix of the token that stands for a recorded action (`U+E002` then `ZT:`).
pub open spec fn action_prefix() -> Seq<char> {
    seq!['\u{e002}', 'Z', 'T', ':']
}

/// The token a template action function returns for the action recorded at `id`.
pub open spec fn action_token_spec(id: nat) -> Seq<char> {
    action_prefix() + decimal(id)
}

/// The token for the action recorded at `id`.
pub fn action_token(id: usize) -> (r: String)
    ensures
        r@ == action_token_spec(id as nat),
{
    let mut v: Vec<char> = vec!['\u{e002}', 'Z', 'T', ':'];
    proof {
        assert(v@ =~= action_prefix());
    }
    push_decimal(&mut v, id as u128);
    string_of(v.as_slice())
}

/// The index a token names among `n_actions` recorded actions: the token is the action
/// prefix followed by a `usize` as std parses it, below `n_actions`.
pub open spec fn decode_token_spec(token: Seq<char>, n_actions: nat) -> Option<nat> {
    if action_prefix().len() <= token.len() && token.take(4) == action_prefix() {
        match parse_unsigned(token.skip(4), usize::MAX as nat) {
            Some(id) => if id < n_actions { Some(id) } else { None },
            None => None,
        }
    } else {
        None
    }
}

/// The detail of the failure for a button whose `on_click` is not an action token.
pub open spec fn invalid_action_detail() -> Seq<char> {
    "Button on_click must come from actions"@
}

/// The index of the recorded action that a button's `on_click` token names.
pub fn decode_action_token(token: &str, n_actions: usize) -> (r: Result<usize, RenderError>)
    ensures
        match r {
            Ok(id) => decode_token_spec(token@, n_actions as nat) == Some(id as nat),
            Err(e) => decode_token_spec(token@, n_actions as nat) is None
                && e is InvalidOperation && e->InvalidOperation_0@ == invalid_action_detail(),
        },
{
    let t = chars_of(token);
    let ok_prefix = t.len() >= 4 && t[0] == '\u{e002}' && t[1] == 'Z' && t[2] == 'T' && t[3] == ':';
    proof {
        if t@.len() >= 4 {
            if ok_prefix {
                assert(t@.take(4) =~= action_prefix());
            } else {
                assert(t@.take(4) != action_prefix()) by {
                    if t@.take(4) == action_prefix() {
                        assert(t@.take(4)[0] == t@[0]);
                        assert(t@.take(4)[1] == t@[1]);
                        assert(t@.take(4)[2] == t@[2]);
                        assert(t@.take(4)[3] == t@[3]);
                    }
                }
            }
        }
    }
    if ok_prefix {
        let rest = sub_chars(t.as_slice(), 4, t.len());
        proof {
            assert(rest@ =~= token@.skip(4));
        }
        match parse_usize(rest.as_slice()) {
            Some(id) => if id < n_actions {
                return Ok(id);
            },
            None => {},
        }
    }
    let v = chars_of("Button on_click must come from actions");
    Err(RenderError::InvalidOperation(string_of(v.as_slice())))
}

/// A token made for a recorded action decodes to that action's index.
pub proof fn lemma_action_token_roundtrip(id: usize, n_actions: nat)
    requires
        id < n_actions,
    ensures
        decode_token_spec(action_token_spec(id as nat), n_actions) == Some(id as nat),
{
    let t = action_token_spec(id as nat);
    lemma_decimal_parses(id as nat, usize::MAX as nat);
    assert(t.take(4) =~= action_prefix());
    assert(t.skip(4) =~= decimal(id as nat));
}

/// The header text of a `Flex` marker (between the marker opening and its end character).
pub open spec fn flex_header_body(args: FlexArgs) -> Seq<char> {
    seq!['F', '|'] + flex_fields(
        text_or(args.direction, "row"@),
        number_or(args.grow, 0) as nat,
        number_or(args.shrink, 1) as nat,
        basis_text(args.basis),
        number_or(args.gap, 0) as nat,
        text_or(args.justify, "start"@),
        text_or(args.align, "start"@),
        text_or(args.overflow, "normal"@),
    )
}

/// The layout settings that valid `Flex` arguments describe.
pub open spec fn flex_spec_of(args: FlexArgs) -> FlexSpec {
    let d = text_or(args.direction, "row"@);
    let j = text_or(args.justify, "start"@);
    let a = text_or(args.align, "start"@);
    let o = text_or(args.overflow, "normal"@);
    FlexSpec {
        direction: if d == "row"@ { Direction::Row } else { Direction::Column },
        grow: number_or(args.grow, 0),
        shrink: number_or(args.shrink, 1),
        basis: match args.basis {
            BasisArg::Cells(n) => Basis::Cells(n),
            _ => Basis::Auto,
        },
        gap: number_or(args.gap, 0),
        justify: if j == "start"@ {
            Justify::Start
        } else if j == "center"@ {
            Justify::Center
        } else if j == "end"@ {
            Justify::End
        } else if j == "space-between"@ {
            Justify::SpaceBetween
        } else {
            Justify::SpaceAround
        },
        align: if a == "start"@ {
            Align::Start
        } else if a == "center"@ {
            Align::Center
        } else if a == "end"@ {
            Align::End
        } else {
            Align::Stretch
        },
        overflow: if o == "normal"@ { Overflow::Normal } else { Overflow::Scroll },
    }
}

proof fn lemma_fields_split(d: Seq<char>, g: nat, sh: nat, b: Seq<char>, gp: nat, j: Seq<char>, a: Seq<char>, o: Seq<char>)
    requires
        lacks(d, '|'),
        lacks(b, '|'),
        lacks(j, '|'),
        lacks(a, '|'),
        lacks(o, '|'),
    ensures
        split_spec(flex_fields(d, g, sh, b, gp, j, a, o), '|') == seq![d, decimal(g), decimal(sh), b, decimal(gp), j, a, o],
{
    lemma_digits_lack(g, '|');
    lemma_digits_lack(sh, '|');
    lemma_digits_lack(gp, '|');
    let bar = seq!['|'];
    lemma_split_single(d, '|');
    lemma_split_join(d, decimal(g), '|');
    lemma_split_join(d + bar + decimal(g), decimal(sh), '|');
    lemma_split_join(d + bar + decimal(g) + bar + decimal(sh), b, '|');
    lemma_split_join(d + bar + decimal(g) + bar + decimal(sh) + bar + b, decimal(gp), '|');
    lemma_split_join(d + bar + decimal(g) + bar + decimal(sh) + bar + b + bar + decimal(gp), j, '|');
    lemma_split_join(d + bar + decimal(g) + bar + decimal(sh) + bar + b + bar + decimal(gp) + bar + j, a, '|');
    lemma_split_join(d + bar + decimal(g) + bar + decimal(sh) + bar + b + bar + decimal(gp) + bar + j + bar + a, o, '|');
    assert(split_spec(flex_fields(d, g, sh, b, gp, j, a, o), '|') =~= seq![d, decimal(g), decimal(sh), b, decimal(gp), j, a, o]);
}

proof fn lemma_fields_lack(d: Seq<char>, g: nat, sh: nat, b: Seq<char>, gp: nat, j: Seq<char>, a: Seq<char>, o: Seq<char>, c: char)
    requires
        lacks(d, c),
        lacks(b, c),
        lacks(j, c),
        lacks(a, c),
        lacks(o, c),
        c != '|',
        !is_digit(c),
    ensures
        lacks(flex_fields(d, g, sh, b, gp, j, a, o), c),
{
    lemma_digits_lack(g, c);
    lemma_digits_lack(sh, c);
    lemma_digits_lack(gp, c);
    let bar = seq!['|'];
    assert(lacks(bar, c));
    lemma_concat_lacks(d, bar, c);
    lemma_concat_lacks(d + bar, decimal(g), c);
    lemma_concat_lacks(d + bar + decimal(g), bar, c);
    lemma_concat_lacks(d + bar + decimal(g) + bar, decimal(sh), c);
    lemma_concat_lacks(d + bar + decimal(g) + bar + decimal(sh), bar, c);
    lemma_concat_lacks(d + bar + decimal(g) + bar + decimal(sh) + bar, b, c);
    lemma_concat_lacks(d + bar + decimal(g) + bar + decimal(sh) + bar + b, bar, c);
    lemma_concat_lacks(d + bar + decimal(g) + bar + decimal(sh) + bar + b + bar, decimal(gp), c);
    lemma_concat_lacks(d + bar + decimal(g) + bar + decimal(sh) + bar + b + bar + decimal(gp), bar, c);
    lemma_concat_lacks(d + bar + decimal(g) + bar + decimal(sh) + bar + b + bar + decimal(gp) + bar, j, c);
    lemma_concat_lacks(d + bar + decimal(g) + bar + decimal(sh) + bar + b + bar + decimal(gp) + bar + j, bar, c);
    lemma_concat_lacks(d + bar + decimal(g) + bar + decimal(sh) + bar + b + bar + decimal(gp) + bar + j + bar, a, c);
    lemma_concat_lacks(d + bar + decimal(g) + bar + decimal(sh) + bar + b + bar + decimal(gp) + bar + j + bar + a, bar, c);
    lemma_concat_lacks(d + bar + decimal(g) + bar + decimal(sh) + bar + b + bar + decimal(gp) + bar + j + bar + a + bar, o, c);
}

proof fn lemma_choice_lacks(v: Seq<char>, valid: Seq<Seq<char>>, c: char)
    requires
        valid.contains(v),
        forall|i: int| 0 <= i < valid.len() ==> lacks(#[trigger] valid[i], c),
    ensures
        lacks(v, c),
{
}

/// Law: the header text a `Flex` call renders holds no marker end, and the parser reads it
/// back as a `Flex` container with exactly the layout settings of the call's arguments.
#[verifier::rlimit(40)]
pub proof fn lemma_flex_header_roundtrip(args: FlexArgs, stack: Seq<OpenV>, n_actions: nat)
    requires
        flex_header_spec(args) is Ok,
    ensures
        flex_header_spec(args) == Ok::<Seq<char>, Seq<char>>(marker_seq() + flex_header_body(args) + seq![marker_end()]),
        lacks(flex_header_body(args), marker_end()),
        apply_marker_spec(stack, flex_header_body(args), n_actions)
            == Ok::<Seq<OpenV>, crate::error::LayoutError>(stack.push(OpenV::Flex(flex_spec_of(args), Seq::empty()))),
{
    reveal_strlit("row");
    reveal_strlit("column");
    reveal_strlit("start");
    reveal_strlit("center");
    reveal_strlit("end");
    reveal_strlit("space-between");
    reveal_strlit("space-around");
    reveal_strlit("stretch");
    reveal_strlit("normal");
    reveal_strlit("scroll");
    reveal_strlit("auto");
    let d = text_or(args.direction, "row"@);
    let j = text_or(args.justify, "start"@);
    let a = text_or(args.align, "start"@);
    let o = text_or(args.overflow, "normal"@);
    let g = number_or(args.grow, 0) as nat;
    let sh = number_or(args.shrink, 1) as nat;
    let b = basis_text(args.basis);
    let gp = number_or(args.gap, 0) as nat;
    assert(directions().contains(d));
    assert(justifications().contains(j));
    assert(alignments().contains(a));
    assert(overflows().contains(o));
    assert forall|i: int| 0 <= i < directions().len() implies lacks(#[trigger] directions()[i], '|') && lacks(directions()[i], marker_end()) by {}
    assert forall|i: int| 0 <= i < justifications().len() implies lacks(#[trigger] justifications()[i], '|') && lacks(justifications()[i], marker_end()) by {}
    assert forall|i: int| 0 <= i < alignments().len() implies lacks(#[trigger] alignments()[i], '|') && lacks(alignments()[i], marker_end()) by {}
    assert forall|i: int| 0 <= i < overflows().len() implies lacks(#[trigger] overflows()[i], '|') && lacks(overflows()[i], marker_end()) by {}
    lemma_choice_lacks(d, directions(), '|');
    lemma_choice_lacks(j, justifications(), '|');
    lemma_choice_lacks(a, alignments(), '|');
    lemma_choice_lacks(o, overflows(), '|');
    lemma_choice_lacks(d, directions(), marker_end());
    lemma_choice_lacks(j, justifications(), marker_end());
    lemma_choice_lacks(a, alignments(), marker_end());
    lemma_choice_lacks(o, overflows(), marker_end());
    lemma_decimal_parses(g, usize::MAX as nat);
    lemma_decimal_parses(sh, usize::MAX as nat);
    lemma_decimal_parses(gp, usize::MAX as nat);
    lemma_digits_lack(g, '|');
    match args.basis {
        BasisArg::Cells(n) => {
            lemma_digits_lack(n as nat, '|');
            lemma_digits_lack(n as nat, marker_end());
            lemma_decimal_parses(n as nat, usize::MAX as nat);
        },
        _ => {},
    }
    assert(lacks(b, '|'));
    assert(lacks(b, marker_end()));
    lemma_fields_split(d, g, sh, b, gp, j, a, o);
    lemma_fields_lack(d, g, sh, b, gp, j, a, o, marker_end());
    let fields = flex_fields(d, g, sh, b, gp, j, a, o);
    let body = flex_header_body(args);
    assert(body.skip(2) =~= fields);
    assert(body[0] == 'F' && body[1] == '|');
    assert(body != seq!['/', 'F'] && body != seq!['/', 'B'] && body != seq!['/', 'O']) by {
        if body == seq!['/', 'F'] || body == seq!['/', 'B'] || body == seq!['/', 'O'] {
            assert(body[0] == '/');
        }
    }
    assert(parse_flex_spec_spec(fields) == Ok::<FlexSpec, crate::error::LayoutError>(flex_spec_of(args)));
    assert(lacks(seq!['F', '|'], marker_end()));
    lemma_concat_lacks(seq!['F', '|'], fields, marker_end());
    assert(marker_seq() + seq!['F', '|'] + fields =~= marker_seq() + body);
}

/// Law: the header text a `Button` call renders holds no marker end, and the parser reads it
/// back as a button for the same recorded action and focus, provided the action was recorded.
pub proof fn lemma_button_marker_roundtrip(id: usize, focused: bool, stack: Seq<OpenV>, n_actions: nat)
    requires
        id < n_actions,
    ensures
        lacks(button_fields(id as nat, focused), marker_end()),
        apply_marker_spec(stack, button_fields(id as nat, focused), n_actions)
            == Ok::<Seq<OpenV>, crate::error::LayoutError>(stack.push(OpenV::Button(id, focused, Seq::empty()))),
{
    let m = button_fields(id as nat, focused);
    let flag = seq![if focused { '1' } else { '0' }];
    lemma_digits_lack(id as nat, '|');
    lemma_digits_lack(id as nat, marker_end());
    lemma_decimal_parses(id as nat, usize::MAX as nat);
    lemma_split_single(decimal(id as nat), '|');
    assert(lacks(flag, '|'));
    lemma_split_join(decimal(id as nat), flag, '|');
    assert(m.skip(2) =~= decimal(id as nat) + seq!['|'] + flag);
    let f = split_spec(m.skip(2), '|');
    assert(f =~= seq![decimal(id as nat), flag]);
    assert(m[0] == 'B' && m[1] == '|');
    assert(m != seq!['/', 'F'] && m != seq!['/', 'B'] && m != seq!['/', 'O']) by {
        if m == seq!['/', 'F'] || m == seq!['/', 'B'] || m == seq!['/', 'O'] {
            assert(m[0] == '/');
        }
    }
    assert(focused ==> flag == seq!['1']);
    assert(!focused ==> flag == seq!['0'] && flag != seq!['1']);
    assert(lacks(seq!['B', '|'], marker_end()));
    lemma_concat_lacks(seq!['B', '|'], decimal(id as nat), marker_end());
    assert(lacks(seq!['|', if focused { '1' } else { '0' }], marker_end()));
    lemma_concat_lacks(seq!['B', '|'] + decimal(id as nat), seq!['|', if focused { '1' } else { '0' }], marker_end());
}

} // verus!
