//! The built-in template actions: what each action function accepts and the action it
//! records. Template values arrive as plain readings of their string and number forms.

use std::collections::BTreeMap;
use vstd::prelude::*;
use crate::chars::{chars_of, decimal, eq_str, parse_unsigned, parse_usize, push_decimal, string_of, sub_chars};
use crate::RenderError;

verus! {

/// What the action decoders read of one template value: its string form, if it is a
/// string; its integer form, if it is an integer that fits `i64`; and its `usize` form,
/// if it converts to one.
#[derive(Clone, Debug)]
pub struct ArgValue {
    pub text: Option<String>,
    pub integer: Option<i64>,
    pub size: Option<usize>,
}

/// A floating pane coordinate: a percentage of the screen or a number of cells.
#[derive(Clone, Copy, Debug, PartialEq, Eq, Structural)]
pub enum Coordinate {
    Percent(usize),
    Fixed(usize),
}

/// Where a plugin launched by an action floats; absent coordinates are left to Zellij.
#[derive(Clone, Copy, Debug, PartialEq, Eq, Structural)]
pub struct PaneCoordinates {
    pub x: Option<Coordinate>,
    pub y: Option<Coordinate>,
    pub width: Option<Coordinate>,
    pub height: Option<Coordinate>,
}

/// A message sent to a plugin, launching it if needed.
#[derive(Clone, Debug, PartialEq, Eq)]
pub struct PluginMessage {
    pub plugin_url: String,
    pub message_name: String,
    pub message_payload: Option<String>,
    pub should_float: Option<bool>,
    pub should_focus: Option<bool>,
}

/// An action a template button can trigger.
#[derive(Clone, Debug, PartialEq, Eq)]
pub enum BuiltinAction {
    FocusSession(Option<String>),
    FocusTab(usize),
    FocusTerminalPane { id: u32, should_float_if_hidden: bool, should_be_in_place_if_hidden: bool },
    FocusPluginPane { id: u32, should_float_if_hidden: bool, should_be_in_place_if_hidden: bool },
    NewTab,
    RunPlugin { url: String, coordinates: PaneCoordinates },
    SendDataToPlugin(PluginMessage),
    RunShellCommand { command: Vec<String>, context: BTreeMap<String, String> },
}

fn invalid(message: &str) -> (r: RenderError)
    ensures
        r matches RenderError::InvalidOperation(m) && m@ == message@,
{
    RenderError::InvalidOperation(string_of(chars_of(message).as_slice()))
}

/// Whether a decoder failed with an invalid operation described by `message`.
pub open spec fn fails_with<T>(r: Result<T, RenderError>, message: Seq<char>) -> bool {
    r matches Err(e) && e matches RenderError::InvalidOperation(m) && m@ == message
}

/// The non-empty string a value holds.
pub open spec fn required_string_spec(v: ArgValue) -> Option<Seq<char>> {
    match v.text {
        Some(s) => if s@.len() > 0 { Some(s@) } else { None },
        None => None,
    }
}

/// The non-empty string a value holds, or a failure described by `message`.
pub fn required_string(value: &ArgValue, message: &str) -> (r: Result<String, RenderError>)
    ensures
        match required_string_spec(*value) {
            Some(s) => r matches Ok(t) && t@ == s,
            None => fails_with(r, message@),
        },
{
    match &value.text {
        Some(s) => if chars_of(s.as_str()).len() > 0 {
            Ok(string_of(chars_of(s.as_str()).as_slice()))
        } else {
            Err(invalid(message))
        },
        None => Err(invalid(message)),
    }
}

/// `focus_session()` focuses the current session's switcher; `focus_session(name)` a
/// named session.
pub fn decode_focus_session(args: &Vec<ArgValue>) -> (r: Result<BuiltinAction, RenderError>)
    ensures
        args@.len() == 0 ==> r == Ok::<BuiltinAction, RenderError>(BuiltinAction::FocusSession(None)),
        args@.len() == 1 ==> match required_string_spec(args@[0]) {
            Some(s) => r matches Ok(a) && a matches BuiltinAction::FocusSession(Some(n)) && n@ == s,
            None => fails_with(r, "focus_session expects a session name"@),
        },
        args@.len() > 1 ==> fails_with(r, "focus_session expects zero or one session name"@),
{
    if args.len() == 0 {
        Ok(BuiltinAction::FocusSession(None))
    } else if args.len() == 1 {
        match required_string(&args[0], "focus_session expects a session name") {
            Ok(s) => Ok(BuiltinAction::FocusSession(Some(s))),
            Err(e) => Err(e),
        }
    } else {
        Err(invalid("focus_session expects zero or one session name"))
    }
}

/// `focus_tab(index)` focuses the tab at a 1-based position.
pub fn decode_focus_tab(args: &Vec<ArgValue>) -> (r: Result<BuiltinAction, RenderError>)
    ensures
        args@.len() == 0 || args@[0].size is None ==> fails_with(r, "focus_tab expects an integer index"@),
        args@.len() > 0 && args@[0].size is Some ==> if args@.len() == 1 {
            r == Ok::<BuiltinAction, RenderError>(BuiltinAction::FocusTab(args@[0].size.unwrap()))
        } else {
            fails_with(r, "focus_tab expects one integer index"@)
        },
{
    if args.len() == 0 {
        return Err(invalid("focus_tab expects an integer index"));
    }
    let index = match args[0].size {
        Some(i) => i,
        None => return Err(invalid("focus_tab expects an integer index")),
    };
    if args.len() != 1 {
        return Err(invalid("focus_tab expects one integer index"));
    }
    Ok(BuiltinAction::FocusTab(index))
}

/// The pane id of a `focus_terminal_pane` or `focus_plugin_pane` call: exactly one
/// positional argument, a `usize` that fits `u32`.
pub fn focus_pane_id(positional: &Vec<ArgValue>) -> (r: Result<u32, RenderError>)
    ensures
        positional@.len() != 1 ==> fails_with(r, "focus pane expects one pane id"@),
        positional@.len() == 1 ==> match positional@[0].size {
            Some(n) => if n <= u32::MAX {
                r == Ok::<u32, RenderError>(n as u32)
            } else {
                fails_with(r, "focus pane expects a non-negative u32 pane id"@)
            },
            None => fails_with(r, "focus pane expects a non-negative u32 pane id"@),
        },
{
    if positional.len() != 1 {
        return Err(invalid("focus pane expects one pane id"));
    }
    match positional[0].size {
        Some(n) => if n <= 4294967295 {
            Ok(n as u32)
        } else {
            Err(invalid("focus pane expects a non-negative u32 pane id"))
        },
        None => Err(invalid("focus pane expects a non-negative u32 pane id")),
    }
}

/// The focus action for a pane: floating it if hidden unless told otherwise, and not in
/// place unless told to.
pub fn focus_pane_action(id: u32, float_if_hidden: Option<bool>, in_place_if_hidden: Option<bool>, terminal: bool) -> (r: BuiltinAction)
    ensures
        terminal ==> r == (BuiltinAction::FocusTerminalPane {
            id,
            should_float_if_hidden: match float_if_hidden { Some(b) => b, None => true },
            should_be_in_place_if_hidden: match in_place_if_hidden { Some(b) => b, None => false },
        }),
        !terminal ==> r == (BuiltinAction::FocusPluginPane {
            id,
            should_float_if_hidden: match float_if_hidden { Some(b) => b, None => true },
            should_be_in_place_if_hidden: match in_place_if_hidden { Some(b) => b, None => false },
        }),
{
    let should_float_if_hidden = match float_if_hidden { Some(b) => b, None => true };
    let should_be_in_place_if_hidden = match in_place_if_hidden { Some(b) => b, None => false };
    if terminal {
        BuiltinAction::FocusTerminalPane { id, should_float_if_hidden, should_be_in_place_if_hidden }
    } else {
        BuiltinAction::FocusPluginPane { id, should_float_if_hidden, should_be_in_place_if_hidden }
    }
}

/// `new_tab()` opens a tab and takes no arguments.
pub fn decode_new_tab(args: &Vec<ArgValue>) -> (r: Result<BuiltinAction, RenderError>)
    ensures
        args@.len() == 0 ==> r == Ok::<BuiltinAction, RenderError>(BuiltinAction::NewTab),
        args@.len() > 0 ==> fails_with(r, "new_tab expects no arguments"@),
{
    if args.len() != 0 {
        return Err(invalid("new_tab expects no arguments"));
    }
    Ok(BuiltinAction::NewTab)
}

/// The text a coordinate argument is read from: a string as written, or a non-negative
/// integer in decimal.
pub open spec fn coordinate_text(v: ArgValue) -> Option<Seq<char>> {
    match v.text {
        Some(s) => Some(s@),
        None => match v.integer {
            Some(i) => if i >= 0 { Some(decimal(i as nat)) } else { None },
            None => None,
        },
    }
}

/// A coordinate's text read as a percentage (`N%`, at most 100) or a number of cells, each
/// number as std's `usize` parsing reads it.
pub open spec fn parse_coordinate(t: Seq<char>) -> Option<Coordinate> {
    if t.len() > 0 && t.last() == '%' {
        match parse_unsigned(t.drop_last(), usize::MAX as nat) {
            Some(p) => if p <= 100 { Some(Coordinate::Percent(p as usize)) } else { None },
            None => None,
        }
    } else {
        match parse_unsigned(t, usize::MAX as nat) {
            Some(n) => Some(Coordinate::Fixed(n as usize)),
            None => None,
        }
    }
}

/// The number a coordinate holds.
pub open spec fn coordinate_number(c: Coordinate) -> usize {
    match c {
        Coordinate::Percent(p) => p,
        Coordinate::Fixed(n) => n,
    }
}

/// A coordinate argument: absent gives the default; present, it must read as a
/// coordinate, and as a non-zero one where zero is not allowed.
pub open spec fn coordinate_spec(value: Option<ArgValue>, default: Option<Coordinate>, allow_zero: bool) -> Option<Option<Coordinate>> {
    match value {
        None => Some(default),
        Some(v) => match coordinate_text(v) {
            None => None,
            Some(t) => match parse_coordinate(t) {
                None => None,
                Some(c) => if !allow_zero && coordinate_number(c) == 0 { None } else { Some(Some(c)) },
            },
        },
    }
}

/// The failure detail for an unusable coordinate argument.
pub open spec fn invalid_coordinate_detail(name: Seq<char>) -> Seq<char> {
    "invalid "@ + name + " coordinate"@
}

/// Reads the coordinate argument `name` of `run_plugin`.
pub fn coordinate_argument(value: Option<&ArgValue>, name: &str, default: Option<Coordinate>, allow_zero: bool) -> (r: Result<Option<Coordinate>, RenderError>)
    ensures
        match coordinate_spec(match value { Some(v) => Some(*v), None => None }, default, allow_zero) {
            Some(c) => r == Ok::<Option<Coordinate>, RenderError>(c),
            None => fails_with(r, invalid_coordinate_detail(name@)),
        },
{
    let v = match value {
        None => return Ok(default),
        Some(v) => v,
    };
    let text: Vec<char> = match &v.text {
        Some(s) => chars_of(s.as_str()),
        None => match v.integer {
            Some(i) => if i >= 0 {
                let mut t: Vec<char> = Vec::new();
                push_decimal(&mut t, i as u128);
                t
            } else {
                return Err(invalid_coordinate(name));
            },
            None => return Err(invalid_coordinate(name)),
        },
    };
    let c = if text.len() > 0 && text[text.len() - 1] == '%' {
        let digits = sub_chars(text.as_slice(), 0, text.len() - 1);
        proof {
            assert(digits@ =~= text@.drop_last());
        }
        match parse_usize(digits.as_slice()) {
            Some(p) => if p <= 100 {
                Coordinate::Percent(p)
            } else {
                return Err(invalid_coordinate(name));
            },
            None => return Err(invalid_coordinate(name)),
        }
    } else {
        match parse_usize(text.as_slice()) {
            Some(n) => Coordinate::Fixed(n),
            None => return Err(invalid_coordinate(name)),
        }
    };
    let n = match c {
        Coordinate::Percent(p) => p,
        Coordinate::Fixed(n) => n,
    };
    if !allow_zero && n == 0 {
        return Err(invalid_coordinate(name));
    }
    Ok(Some(c))
}

fn invalid_coordinate(name: &str) -> (r: RenderError)
    ensures
        r matches RenderError::InvalidOperation(m) && m@ == invalid_coordinate_detail(name@),
{
    let mut v = chars_of("invalid ");
    crate::chars::extend_str(&mut v, name);
    crate::chars::extend_str(&mut v, " coordinate");
    RenderError::InvalidOperation(string_of(v.as_slice()))
}

/// The plugin URL of a `run_plugin` call: exactly one positional argument, a non-empty
/// string.
pub fn run_plugin_url(positional: &Vec<ArgValue>) -> (r: Result<String, RenderError>)
    ensures
        positional@.len() != 1 ==> fails_with(r, "run_plugin expects one plugin URL"@),
        positional@.len() == 1 ==> match required_string_spec(positional@[0]) {
            Some(s) => r matches Ok(t) && t@ == s,
            None => fails_with(r, "run_plugin expects a non-empty plugin URL"@),
        },
{
    if positional.len() != 1 {
        return Err(invalid("run_plugin expects one plugin URL"));
    }
    required_string(&positional[0], "run_plugin expects a non-empty plugin URL")
}

/// The value a keyword argument was given, if any.
pub open spec fn given(value: Option<&ArgValue>) -> Option<ArgValue> {
    match value {
        Some(v) => Some(*v),
        None => None,
    }
}

/// Where a `run_plugin` call floats the plugin: `x` and `y` are left to Zellij when
/// absent and may be zero; the width `w` and height `h` default to half the screen and
/// must not be zero. The first invalid one, in that order, is reported.
pub open spec fn run_plugin_coordinates_spec(x: Option<ArgValue>, y: Option<ArgValue>, w: Option<ArgValue>, h: Option<ArgValue>) -> Result<PaneCoordinates, Seq<char>> {
    match coordinate_spec(x, None, true) {
        None => Err(invalid_coordinate_detail("x"@)),
        Some(cx) => match coordinate_spec(y, None, true) {
            None => Err(invalid_coordinate_detail("y"@)),
            Some(cy) => match coordinate_spec(w, Some(Coordinate::Percent(50)), false) {
                None => Err(invalid_coordinate_detail("w"@)),
                Some(cw) => match coordinate_spec(h, Some(Coordinate::Percent(50)), false) {
                    None => Err(invalid_coordinate_detail("h"@)),
                    Some(ch) => Ok(PaneCoordinates { x: cx, y: cy, width: cw, height: ch }),
                },
            },
        },
    }
}

/// The floating coordinates of a `run_plugin` call from its `x`, `y`, `w` and `h`
/// keyword arguments.
pub fn run_plugin_coordinates(x: Option<&ArgValue>, y: Option<&ArgValue>, w: Option<&ArgValue>, h: Option<&ArgValue>) -> (r: Result<PaneCoordinates, RenderError>)
    ensures
        match run_plugin_coordinates_spec(given(x), given(y), given(w), given(h)) {
            Ok(c) => r == Ok::<PaneCoordinates, RenderError>(c),
            Err(m) => fails_with(r, m),
        },
{
    let half = Some(Coordinate::Percent(50));
    let cx = match coordinate_argument(x, "x", None, true) {
        Ok(c) => c,
        Err(e) => return Err(e),
    };
    let cy = match coordinate_argument(y, "y", None, true) {
        Ok(c) => c,
        Err(e) => return Err(e),
    };
    let cw = match coordinate_argument(w, "w", half, false) {
        Ok(c) => c,
        Err(e) => return Err(e),
    };
    let ch = match coordinate_argument(h, "h", half, false) {
        Ok(c) => c,
        Err(e) => return Err(e),
    };
    Ok(PaneCoordinates { x: cx, y: cy, width: cw, height: ch })
}

/// The plugin URL and message name of a `send_data_to_plugin` call: exactly two
/// positional arguments, both non-empty strings.
pub fn plugin_message_target(positional: &Vec<ArgValue>) -> (r: Result<(String, String), RenderError>)
    ensures
        positional@.len() != 2 ==> fails_with(r, "send_data_to_plugin expects plugin URL and message name"@),
        positional@.len() == 2 ==> match required_string_spec(positional@[0]) {
            None => fails_with(r, "send_data_to_plugin expects a plugin URL"@),
            Some(u) => match required_string_spec(positional@[1]) {
                None => fails_with(r, "send_data_to_plugin expects a message name"@),
                Some(n) => r matches Ok(p) && p.0@ == u && p.1@ == n,
            },
        },
{
    if positional.len() != 2 {
        return Err(invalid("send_data_to_plugin expects plugin URL and message name"));
    }
    let url = match required_string(&positional[0], "send_data_to_plugin expects a plugin URL") {
        Ok(u) => u,
        Err(e) => return Err(e),
    };
    let name = match required_string(&positional[1], "send_data_to_plugin expects a message name") {
        Ok(n) => n,
        Err(e) => return Err(e),
    };
    Ok((url, name))
}

/// The texts of string values.
pub open spec fn texts(v: Seq<String>) -> Seq<Seq<char>> {
    v.map_values(|s: String| s@)
}

/// `run_shell_cmd(cmd, args...)` runs a command; every argument must be a non-empty string.
pub fn decode_run_shell_cmd(args: &Vec<ArgValue>) -> (r: Result<BuiltinAction, RenderError>)
    ensures
        args@.len() == 0 ==> fails_with(r, "run_shell_cmd expects at least one command argument"@),
        args@.len() > 0 && (forall|i: int| 0 <= i < args@.len() ==> #[trigger] required_string_spec(args@[i]) is Some)
            ==> (r matches Ok(a) && a matches BuiltinAction::RunShellCommand { command, context }
                && command@.len() == args@.len() && context@.len() == 0
                && forall|i: int| 0 <= i < args@.len() ==> required_string_spec(args@[i]) == Some(#[trigger] command@[i]@)),
        args@.len() > 0 && (exists|i: int| 0 <= i < args@.len() && #[trigger] required_string_spec(args@[i]) is None)
            ==> fails_with(r, "run_shell_cmd expects string arguments"@),
{
    if args.len() == 0 {
        return Err(invalid("run_shell_cmd expects at least one command argument"));
    }
    let mut command: Vec<String> = Vec::new();
    let mut k: usize = 0;
    while k < args.len()
        invariant
            k <= args@.len(),
            command@.len() == k,
            forall|i: int| 0 <= i < k ==> required_string_spec(args@[i]) == Some(#[trigger] command@[i]@),
        decreases args@.len() - k,
    {
        match required_string(&args[k], "run_shell_cmd expects string arguments") {
            Ok(s) => command.push(s),
            Err(e) => {
                return Err(e);
            },
        }
        k += 1;
    }
    proof {
        assert forall|i: int| 0 <= i < args@.len() implies #[trigger] required_string_spec(args@[i]) is Some by {
            assert(required_string_spec(args@[i]) == Some(command@[i]@));
        }
    }
    Ok(BuiltinAction::RunShellCommand { command, context: BTreeMap::new() })
}

/// The plugins that `run_plugin` actions launched and that are still open: each plugin
/// URL with the id of its plugin pane, every URL at most once.
pub struct OpenPlugins {
    entries: Vec<(String, u32)>,
}

/// Whether no URL occurs twice among the entries.
pub open spec fn urls_distinct(s: Seq<(String, u32)>) -> bool {
    forall|i: int, j: int| 0 <= i < j < s.len() ==> (#[trigger] s[i]).0@ != (#[trigger] s[j]).0@
}

/// Whether some entry holds the URL `k`.
pub open spec fn has_url(s: Seq<(String, u32)>, k: Seq<char>) -> bool {
    exists|i: int| 0 <= i < s.len() && (#[trigger] s[i]).0@ == k
}

/// The map from URL to pane id that the entries hold.
pub open spec fn url_map(s: Seq<(String, u32)>) -> Map<Seq<char>, u32> {
    Map::new(|k: Seq<char>| has_url(s, k), |k: Seq<char>| s[choose|i: int| 0 <= i < s.len() && (#[trigger] s[i]).0@ == k].1)
}

proof fn lemma_url_map_at(s: Seq<(String, u32)>, i: int)
    requires
        urls_distinct(s),
        0 <= i < s.len(),
    ensures
        url_map(s).contains_key(s[i].0@),
        url_map(s)[s[i].0@] == s[i].1,
{
    let k = s[i].0@;
    assert(has_url(s, k));
    let j = choose|j: int| 0 <= j < s.len() && (#[trigger] s[j]).0@ == k;
    if j != i {
        if j < i {
            assert(s[j].0@ != s[i].0@);
        } else {
            assert(s[i].0@ != s[j].0@);
        }
    }
}

impl View for OpenPlugins {
    type V = Map<Seq<char>, u32>;

    closed spec fn view(&self) -> Map<Seq<char>, u32> {
        url_map(self.entries@)
    }
}

impl OpenPlugins {
    /// Every URL occurs at most once.
    #[verifier::type_invariant]
    spec fn wf(&self) -> bool {
        urls_distinct(self.entries@)
    }

    /// No plugin launched yet.
    pub fn new() -> (r: OpenPlugins)
        ensures
            r@ == Map::<Seq<char>, u32>::empty(),
    {
        let r = OpenPlugins { entries: Vec::new() };
        proof {
            assert(r@ =~= Map::<Seq<char>, u32>::empty());
        }
        r
    }

    /// The pane of the open plugin launched from `url`, if there is one: a `run_plugin`
    /// action then brings that pane back instead of launching the plugin again.
    pub fn plugin_for(&self, url: &str) -> (r: Option<u32>)
        ensures
            match r {
                Some(id) => self@.contains_key(url@) && self@[url@] == id,
                None => !self@.contains_key(url@),
            },
    {
        proof {
            use_type_invariant(self);
        }
        let mut i: usize = 0;
        while i < self.entries.len()
            invariant
                i <= self.entries@.len(),
                urls_distinct(self.entries@),
                forall|j: int| 0 <= j < i ==> (#[trigger] self.entries@[j]).0@ != url@,
            decreases self.entries@.len() - i,
        {
            let name = chars_of(self.entries[i].0.as_str());
            if eq_str(name.as_slice(), url) {
                proof {
                    lemma_url_map_at(self.entries@, i as int);
                }
                return Some(self.entries[i].1);
            }
            i += 1;
        }
        None
    }

    /// Records the pane a plugin launched from `url` opened in.
    pub fn record(&mut self, url: String, id: u32)
        ensures
            final(self)@ == old(self)@.insert(url@, id),
    {
        proof {
            use_type_invariant(&*self);
        }
        let mut entries: Vec<(String, u32)> = Vec::new();
        std::mem::swap(&mut entries, &mut self.entries);
        let ghost old_entries = entries@;
        let mut i: usize = 0;
        while i < entries.len()
            invariant
                i <= entries@.len(),
                entries@ == old_entries,
                old_entries == old(self).entries@,
                self.entries@.len() == 0,
                urls_distinct(old_entries),
                forall|j: int| 0 <= j < i ==> (#[trigger] old_entries[j]).0@ != url@,
            decreases entries@.len() - i,
        {
            let name = chars_of(entries[i].0.as_str());
            if eq_str(name.as_slice(), url.as_str()) {
                let ghost key = url@;
                entries.set(i, (url, id));
                proof {
                    let s = entries@;
                    assert(s == old_entries.update(i as int, s[i as int]));
                    assert(s[i as int].0@ == key && s[i as int].1 == id);
                    assert forall|a: int, b: int| 0 <= a < b < s.len() implies (#[trigger] s[a]).0@ != (#[trigger] s[b]).0@ by {
                        if a != i && b != i {
                            assert(old_entries[a].0@ != old_entries[b].0@);
                        } else if a == i {
                            assert(old_entries[a].0@ != old_entries[b].0@);
                        } else {
                            assert(old_entries[a].0@ != old_entries[b].0@);
                        }
                    }
                    assert forall|k: Seq<char>| #[trigger] url_map(s).contains_key(k) == url_map(old_entries).insert(key, id).contains_key(k) by {
                        if has_url(s, k) && k != key {
                            let j = choose|j: int| 0 <= j < s.len() && (#[trigger] s[j]).0@ == k;
                            assert(j != i);
                            assert(old_entries[j].0@ == k);
                        }
                        if has_url(old_entries, k) {
                            let j = choose|j: int| 0 <= j < old_entries.len() && (#[trigger] old_entries[j]).0@ == k;
                            if j == i {
                                assert(s[i as int].0@ == key);
                            } else {
                                assert(s[j].0@ == k);
                            }
                        }
                        if k == key {
                            assert(s[i as int].0@ == k);
                        }
                    }
                    assert forall|k: Seq<char>| url_map(s).contains_key(k) implies #[trigger] url_map(s)[k] == url_map(old_entries).insert(key, id)[k] by {
                        let j = choose|j: int| 0 <= j < s.len() && (#[trigger] s[j]).0@ == k;
                        lemma_url_map_at(s, j);
                        if j != i {
                            assert(old_entries[j] == s[j]);
                            lemma_url_map_at(old_entries, j);
                        }
                    }
                    assert(url_map(s) =~= url_map(old_entries).insert(key, id));
                }
                self.entries = entries;
                return;
            }
            i += 1;
        }
        let ghost key = url@;
        entries.push((url, id));
        proof {
            let s = entries@;
            let n = old_entries.len() as int;
            assert(s == old_entries.push(s[n]));
            assert(s[n].0@ == key && s[n].1 == id);
            assert forall|a: int, b: int| 0 <= a < b < s.len() implies (#[trigger] s[a]).0@ != (#[trigger] s[b]).0@ by {
                if b < n {
                    assert(old_entries[a].0@ != old_entries[b].0@);
                } else {
                    assert(old_entries[a].0@ != key);
                }
            }
            assert forall|k: Seq<char>| #[trigger] url_map(s).contains_key(k) == url_map(old_entries).insert(key, id).contains_key(k) by {
                if has_url(s, k) && k != key {
                    let j = choose|j: int| 0 <= j < s.len() && (#[trigger] s[j]).0@ == k;
                    assert(j != n);
                    assert(old_entries[j].0@ == k);
                }
                if has_url(old_entries, k) {
                    let j = choose|j: int| 0 <= j < old_entries.len() && (#[trigger] old_entries[j]).0@ == k;
                    assert(s[j].0@ == k);
                }
                if k == key {
                    assert(s[n].0@ == k);
                }
            }
            assert forall|k: Seq<char>| url_map(s).contains_key(k) implies #[trigger] url_map(s)[k] == url_map(old_entries).insert(key, id)[k] by {
                let j = choose|j: int| 0 <= j < s.len() && (#[trigger] s[j]).0@ == k;
                lemma_url_map_at(s, j);
                if j != n {
                    assert(old_entries[j] == s[j]);
                    lemma_url_map_at(old_entries, j);
                }
            }
            assert(url_map(s) =~= url_map(old_entries).insert(key, id));
        }
        self.entries = entries;
    }

    /// Forgets the plugins whose panes are no longer open: only URLs whose pane id is
    /// among the ids of the open plugin panes stay.
    pub fn retain_alive(&mut self, alive: &Vec<u32>)
        ensures
            forall|k: Seq<char>| #[trigger] final(self)@.contains_key(k)
                <==> (old(self)@.contains_key(k) && alive@.contains(old(self)@[k])),
            forall|k: Seq<char>| final(self)@.contains_key(k) ==> #[trigger] final(self)@[k] == old(self)@[k],
    {
        proof {
            use_type_invariant(&*self);
        }
        let ghost old_entries = self.entries@;
        let mut kept: Vec<(String, u32)> = Vec::new();
        let ghost mut from: Seq<int> = Seq::empty();
        let mut i: usize = 0;
        while i < self.entries.len()
            invariant
                i <= self.entries@.len(),
                self.entries@ == old_entries,
                urls_distinct(old_entries),
                kept@.len() == from.len(),
                forall|a: int| 0 <= a < from.len() ==> 0 <= #[trigger] from[a] < i
                    && kept@[a].0@ == old_entries[from[a]].0@ && kept@[a].1 == old_entries[from[a]].1
                    && alive@.contains(old_entries[from[a]].1),
                forall|a: int, b: int| 0 <= a < b < from.len() ==> #[trigger] from[a] < #[trigger] from[b],
                forall|j: int| 0 <= j < i && alive@.contains(#[trigger] old_entries[j].1) ==> exists|a: int| 0 <= a < from.len() && from[a] == j,
            decreases self.entries@.len() - i,
        {
            let id = self.entries[i].1;
            let mut found = false;
            let mut q: usize = 0;
            while q < alive.len()
                invariant
                    q <= alive@.len(),
                    found == (exists|p: int| 0 <= p < q && alive@[p] == id),
                decreases alive@.len() - q,
            {
                if alive[q] == id {
                    found = true;
                }
                q += 1;
            }
            if found {
                let name = self.entries[i].0.clone();
                proof {
                    let p = choose|p: int| 0 <= p < alive@.len() && alive@[p] == id;
                    assert(alive@.contains(id));
                }
                kept.push((name, id));
                proof {
                    let ghost old_from = from;
                    from = from.push(i as int);
                    assert forall|j: int| 0 <= j < i + 1 && alive@.contains(#[trigger] old_entries[j].1) implies exists|a: int| 0 <= a < from.len() && from[a] == j by {
                        if j == i {
                            assert(from[from.len() - 1] == j);
                        } else {
                            let a = choose|a: int| 0 <= a < old_from.len() && old_from[a] == j;
                            assert(from[a] == j);
                        }
                    }
                }
            } else {
                proof {
                    assert(!alive@.contains(id));
                }
            }
            i += 1;
        }
        proof {
            let s = kept@;
            assert forall|a: int, b: int| 0 <= a < b < s.len() implies (#[trigger] s[a]).0@ != (#[trigger] s[b]).0@ by {
                assert(from[a] < from[b]);
                assert(old_entries[from[a]].0@ != old_entries[from[b]].0@);
            }
            assert forall|k: Seq<char>| #[trigger] url_map(s).contains_key(k)
                <==> (url_map(old_entries).contains_key(k) && alive@.contains(url_map(old_entries)[k])) by {
                if has_url(s, k) {
                    let a = choose|a: int| 0 <= a < s.len() && (#[trigger] s[a]).0@ == k;
                    lemma_url_map_at(old_entries, from[a]);
                }
                if has_url(old_entries, k) {
                    let j = choose|j: int| 0 <= j < old_entries.len() && (#[trigger] old_entries[j]).0@ == k;
                    lemma_url_map_at(old_entries, j);
                    if alive@.contains(old_entries[j].1) {
                        let a = choose|a: int| 0 <= a < from.len() && from[a] == j;
                        assert(s[a].0@ == k);
                    }
                }
            }
            assert forall|k: Seq<char>| url_map(s).contains_key(k) implies #[trigger] url_map(s)[k] == url_map(old_entries)[k] by {
                let a = choose|a: int| 0 <= a < s.len() && (#[trigger] s[a]).0@ == k;
                lemma_url_map_at(s, a);
                lemma_url_map_at(old_entries, from[a]);
            }
        }
        self.entries = kept;
    }
}

} // verus!
