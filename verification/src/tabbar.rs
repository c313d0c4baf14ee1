//! The tab bar's button policy: which button shows as focused, how a tab's label is
//! decorated, and which palette colours paint it.

use vstd::prelude::*;
use crate::actions::BuiltinAction;
use crate::chars::{chars_of, extend_str, string_of};
use crate::host::ThemeColor;
use crate::paths::ExternalTemplate;
use crate::ButtonPresentation;
use crate::RenderError;

verus! {

/// What the tab bar reads of one Zellij tab.
#[derive(Clone, Copy, Debug, PartialEq, Eq, Structural)]
pub struct TabModel {
    pub position: usize,
    pub active: bool,
    pub is_fullscreen_active: bool,
    pub is_sync_panes_active: bool,
    pub has_bell_notification: bool,
    pub is_flashing_bell: bool,
}

/// Whether no tab position is the largest `usize` (so every 1-based index exists).
pub open spec fn positions_fit(tabs: Seq<TabModel>) -> bool {
    forall|i: int| 0 <= i < tabs.len() ==> #[trigger] tabs[i].position < usize::MAX
}

/// Whether no tab position is the largest `usize`.
pub fn positions_fit_all(tabs: &Vec<TabModel>) -> (r: bool)
    ensures
        r == positions_fit(tabs@),
{
    let mut i: usize = 0;
    while i < tabs.len()
        invariant
            i <= tabs@.len(),
            forall|j: int| 0 <= j < i ==> #[trigger] tabs@[j].position < usize::MAX,
        decreases tabs@.len() - i,
    {
        if tabs[i].position == usize::MAX {
            return false;
        }
        i += 1;
    }
    true
}

/// Whether `i` is the first tab at the 1-based index `index`.
pub open spec fn is_first_tab_at(tabs: Seq<TabModel>, index: usize, i: int) -> bool {
    &&& 0 <= i < tabs.len()
    &&& tabs[i].position + 1 == index
    &&& forall|j: int| 0 <= j < i ==> #[trigger] tabs[j].position + 1 != index
}

/// Whether some tab sits at the 1-based index `index`.
pub open spec fn has_tab_at(tabs: Seq<TabModel>, index: usize) -> bool {
    exists|i: int| 0 <= i < tabs.len() && #[trigger] tabs[i].position + 1 == index
}

/// The failure detail for a `focus_tab` button whose tab does not exist.
pub open spec fn missing_tab_detail() -> Seq<char> {
    "focus_tab index does not exist"@
}

/// The first tab at a 1-based index.
pub fn find_tab(tabs: &Vec<TabModel>, index: usize) -> (r: Result<usize, RenderError>)
    requires
        positions_fit(tabs@),
    ensures
        match r {
            Ok(i) => is_first_tab_at(tabs@, index, i as int),
            Err(e) => !has_tab_at(tabs@, index) && e is InvalidOperation
                && e->InvalidOperation_0@ == missing_tab_detail(),
        },
{
    let mut i: usize = 0;
    while i < tabs.len()
        invariant
            i <= tabs@.len(),
            positions_fit(tabs@),
            forall|j: int| 0 <= j < i ==> #[trigger] tabs@[j].position + 1 != index,
        decreases tabs@.len() - i,
    {
        if tabs[i].position + 1 == index {
            return Ok(i);
        }
        i += 1;
    }
    let v = chars_of("focus_tab index does not exist");
    Err(RenderError::InvalidOperation(string_of(v.as_slice())))
}

/// Whether an active tab sits at the 1-based index `index`.
pub open spec fn active_tab_at(tabs: Seq<TabModel>, index: usize) -> bool {
    exists|i: int| 0 <= i < tabs.len() && #[trigger] tabs[i].active && tabs[i].position + 1 == index
}

/// Whether a button shows as focused: as the template says, else a `focus_tab` button is
/// focused when its tab is the active one, and any other button is not.
pub open spec fn button_focus_spec(explicit: Option<bool>, action: BuiltinAction, tabs: Seq<TabModel>) -> bool {
    match explicit {
        Some(f) => f,
        None => match action {
            BuiltinAction::FocusTab(index) => active_tab_at(tabs, index),
            _ => false,
        },
    }
}

fn any_active_at(tabs: &Vec<TabModel>, index: usize) -> (r: bool)
    requires
        positions_fit(tabs@),
    ensures
        r == active_tab_at(tabs@, index),
{
    let mut i: usize = 0;
    while i < tabs.len()
        invariant
            i <= tabs@.len(),
            positions_fit(tabs@),
            forall|j: int| 0 <= j < i ==> !(#[trigger] tabs@[j].active && tabs@[j].position + 1 == index),
        decreases tabs@.len() - i,
    {
        if tabs[i].active && tabs[i].position + 1 == index {
            proof {
                assert(tabs@[i as int].active && tabs@[i as int].position + 1 == index);
            }
            return true;
        }
        i += 1;
    }
    false
}

/// Whether a button shows as focused.
pub fn button_focus(explicit: Option<bool>, action: &BuiltinAction, tabs: &Vec<TabModel>) -> (r: bool)
    requires
        positions_fit(tabs@),
    ensures
        r == button_focus_spec(explicit, *action, tabs@),
{
    match explicit {
        Some(f) => f,
        None => match action {
            BuiltinAction::FocusTab(index) => any_active_at(tabs, *index),
            _ => false,
        },
    }
}

/// The Zellij style colour a part of a button is painted with.
#[derive(Clone, Copy, Debug, PartialEq, Eq, Structural)]
pub enum PaletteSlot {
    /// Background of unselected text: the bar's fill.
    TextUnselectedBackground,
    SelectedBase,
    SelectedBackground,
    SelectedEmphasis3,
    UnselectedBase,
    UnselectedBackground,
    UnselectedEmphasis1,
    UnselectedEmphasis3,
}

/// How to paint a button: its text between two separators, the separator glyph, and the
/// colours of the text and of the bar around it.
#[derive(Clone, Debug, PartialEq, Eq)]
pub struct ButtonStyle {
    pub text: String,
    pub separator: String,
    pub foreground: PaletteSlot,
    pub background: PaletteSlot,
    pub fill: PaletteSlot,
}

/// A tab's label with its state markers: ` (FULLSCREEN)` or else ` (SYNC)`, then ` [!]`
/// for a bell.
pub open spec fn decorated_label(label: Seq<char>, tab: TabModel) -> Seq<char> {
    let a = if tab.is_fullscreen_active {
        label + " (FULLSCREEN)"@
    } else if tab.is_sync_panes_active {
        label + " (SYNC)"@
    } else {
        label
    };
    if tab.has_bell_notification || tab.is_flashing_bell { a + " [!]"@ } else { a }
}

/// Whether a button uses the alternate background that separates neighbours when arrow
/// fonts are available: even tab indexes, and launch buttons after an odd number of tabs.
pub open spec fn alternate_spec(action: BuiltinAction, n_tabs: nat, arrow_fonts: bool) -> bool {
    match action {
        BuiltinAction::FocusTab(index) => index % 2 == 0 && arrow_fonts,
        BuiltinAction::NewTab => n_tabs % 2 == 1 && arrow_fonts,
        BuiltinAction::RunPlugin { .. } => n_tabs % 2 == 1 && arrow_fonts,
        _ => false,
    }
}

/// The style of a button with the given label, action and focus: `None` for a `focus_tab`
/// button whose tab does not exist.
pub open spec fn button_style_spec(label: Seq<char>, action: BuiltinAction, focused: bool, tabs: Seq<TabModel>, arrow_fonts: bool) -> Option<(Seq<char>, Seq<char>, PaletteSlot, PaletteSlot)> {
    let background = if focused {
        PaletteSlot::SelectedBackground
    } else if alternate_spec(action, tabs.len(), arrow_fonts) {
        PaletteSlot::UnselectedEmphasis1
    } else {
        PaletteSlot::UnselectedBackground
    };
    let separator = if arrow_fonts { Seq::<char>::empty() } else { seq!['\u{e0b0}'] };
    match action {
        BuiltinAction::FocusTab(index) => if !has_tab_at(tabs, index) {
            None
        } else {
            let t = tabs[choose|i: int| is_first_tab_at(tabs, index, i)];
            let foreground = if t.is_flashing_bell || t.has_bell_notification {
                if focused { PaletteSlot::SelectedEmphasis3 } else { PaletteSlot::UnselectedEmphasis3 }
            } else if focused {
                PaletteSlot::SelectedBase
            } else {
                PaletteSlot::UnselectedBase
            };
            Some((seq![' '] + decorated_label(label, t) + seq![' '], separator, foreground, background))
        },
        _ => Some((seq![' '] + label + seq![' '], separator, PaletteSlot::UnselectedBase, background)),
    }
}

proof fn lemma_first_tab_unique(tabs: Seq<TabModel>, index: usize, i: int, k: int)
    requires
        is_first_tab_at(tabs, index, i),
        is_first_tab_at(tabs, index, k),
    ensures
        i == k,
{
    if i < k {
        assert(tabs[i].position + 1 != index);
    } else if k < i {
        assert(tabs[k].position + 1 != index);
    }
}

/// Law: a `focus_tab` button's text shows its tab's state right after the label. It is a
/// space and the label, then ` (FULLSCREEN)` for a fullscreen tab, else ` (SYNC)` for a
/// tab that syncs panes, then ` [!]` when the tab has a bell, and a closing space.
pub proof fn lemma_tab_button_markers(label: Seq<char>, index: usize, focused: bool, tabs: Seq<TabModel>, arrow_fonts: bool, j: int)
    requires
        is_first_tab_at(tabs, index, j),
    ensures
        ({
            let tab = tabs[j];
            let l = label.len() as int;
            let fs = tab.is_fullscreen_active;
            let sync = !fs && tab.is_sync_panes_active;
            let bell = tab.has_bell_notification || tab.is_flashing_bell;
            let marker_len: int = if fs { 13 } else if sync { 7 } else { 0 };
            match button_style_spec(label, BuiltinAction::FocusTab(index), focused, tabs, arrow_fonts) {
                Some((text, _, _, _)) => {
                    &&& text.len() == l + 2 + marker_len + (if bell { 4int } else { 0 })
                    &&& text.take(l + 1) == seq![' '] + label
                    &&& (fs ==> text.subrange(l + 1, l + 14) == " (FULLSCREEN)"@)
                    &&& (sync ==> text.subrange(l + 1, l + 8) == " (SYNC)"@)
                    &&& (bell ==> text.subrange(l + 1 + marker_len, l + 5 + marker_len) == " [!]"@)
                    &&& text.last() == ' '
                },
                None => false,
            }
        }),
{
    reveal_strlit(" (FULLSCREEN)");
    reveal_strlit(" (SYNC)");
    reveal_strlit(" [!]");
    assert(has_tab_at(tabs, index)) by {
        assert(tabs[j].position + 1 == index);
    }
    let k = choose|i: int| is_first_tab_at(tabs, index, i);
    lemma_first_tab_unique(tabs, index, j, k);
    let tab = tabs[j];
    let l = label.len() as int;
    let fs = tab.is_fullscreen_active;
    let sync = !fs && tab.is_sync_panes_active;
    let bell = tab.has_bell_notification || tab.is_flashing_bell;
    let marker: Seq<char> = if fs { " (FULLSCREEN)"@ } else if sync { " (SYNC)"@ } else { Seq::empty() };
    let a = label + marker;
    let d = decorated_label(label, tab);
    assert(d == if bell { a + " [!]"@ } else { a });
    let text = seq![' '] + d + seq![' '];
    assert(text.take(l + 1) =~= seq![' '] + label);
    if fs {
        assert(text.subrange(l + 1, l + 14) =~= " (FULLSCREEN)"@);
    }
    if sync {
        assert(text.subrange(l + 1, l + 8) =~= " (SYNC)"@);
    }
    if bell {
        let m = marker.len() as int;
        assert(text.subrange(l + 1 + m, l + 5 + m) =~= " [!]"@);
    }
}

/// How to paint a button: its label (a tab's with its state markers) padded by a space on
/// each side, the separator glyph (none with arrow fonts), and its colours.
pub fn button_style(label: &str, action: &BuiltinAction, focused: bool, tabs: &Vec<TabModel>, arrow_fonts: bool) -> (r: Result<ButtonStyle, RenderError>)
    requires
        positions_fit(tabs@),
    ensures
        match button_style_spec(label@, *action, focused, tabs@, arrow_fonts) {
            Some((text, separator, foreground, background)) => r matches Ok(s) && s.text@ == text
                && s.separator@ == separator && s.foreground == foreground && s.background == background
                && s.fill == PaletteSlot::TextUnselectedBackground,
            None => r matches Err(e) && e is InvalidOperation && e->InvalidOperation_0@ == missing_tab_detail(),
        },
{
    let alternate = match action {
        BuiltinAction::FocusTab(index) => *index % 2 == 0 && arrow_fonts,
        BuiltinAction::NewTab => tabs.len() % 2 == 1 && arrow_fonts,
        BuiltinAction::RunPlugin { .. } => tabs.len() % 2 == 1 && arrow_fonts,
        _ => false,
    };
    let background = if focused {
        PaletteSlot::SelectedBackground
    } else if alternate {
        PaletteSlot::UnselectedEmphasis1
    } else {
        PaletteSlot::UnselectedBackground
    };
    let separator: Vec<char> = if arrow_fonts { Vec::new() } else { vec!['\u{e0b0}'] };
    proof {
        if !arrow_fonts {
            assert(separator@ =~= seq!['\u{e0b0}']);
        }
    }
    let mut text: Vec<char> = vec![' '];
    extend_str(&mut text, label);
    let foreground = match action {
        BuiltinAction::FocusTab(index) => {
            let i = match find_tab(tabs, *index) {
                Ok(i) => i,
                Err(e) => return Err(e),
            };
            let t = tabs[i];
            proof {
                assert(has_tab_at(tabs@, *index));
                let k = choose|k: int| is_first_tab_at(tabs@, *index, k);
                lemma_first_tab_unique(tabs@, *index, i as int, k);
            }
            if t.is_fullscreen_active {
                extend_str(&mut text, " (FULLSCREEN)");
            } else if t.is_sync_panes_active {
                extend_str(&mut text, " (SYNC)");
            }
            if t.has_bell_notification || t.is_flashing_bell {
                extend_str(&mut text, " [!]");
            }
            if t.is_flashing_bell || t.has_bell_notification {
                if focused { PaletteSlot::SelectedEmphasis3 } else { PaletteSlot::UnselectedEmphasis3 }
            } else if focused {
                PaletteSlot::SelectedBase
            } else {
                PaletteSlot::UnselectedBase
            }
        },
        _ => PaletteSlot::UnselectedBase,
    };
    text.push(' ');
    proof {
        match *action {
            BuiltinAction::FocusTab(index) => {
                let t = tabs@[choose|i: int| is_first_tab_at(tabs@, index, i)];
                assert(text@ =~= seq![' '] + decorated_label(label@, t) + seq![' ']);
            },
            _ => {
                assert(text@ =~= seq![' '] + label@ + seq![' ']);
            },
        }
    }
    Ok(ButtonStyle {
        text: string_of(text.as_slice()),
        separator: string_of(separator.as_slice()),
        foreground,
        background,
        fill: PaletteSlot::TextUnselectedBackground,
    })
}

/// The Zellij style colours a tab bar button can be painted with.
#[derive(Clone, Copy, Debug, PartialEq, Eq, Structural)]
pub struct ButtonPalette {
    pub text_unselected_background: ThemeColor,
    pub selected_base: ThemeColor,
    pub selected_background: ThemeColor,
    pub selected_emphasis_3: ThemeColor,
    pub unselected_base: ThemeColor,
    pub unselected_background: ThemeColor,
    pub unselected_emphasis_1: ThemeColor,
    pub unselected_emphasis_3: ThemeColor,
}

/// The colour a palette gives a slot.
pub open spec fn slot_color(p: ButtonPalette, slot: PaletteSlot) -> ThemeColor {
    match slot {
        PaletteSlot::TextUnselectedBackground => p.text_unselected_background,
        PaletteSlot::SelectedBase => p.selected_base,
        PaletteSlot::SelectedBackground => p.selected_background,
        PaletteSlot::SelectedEmphasis3 => p.selected_emphasis_3,
        PaletteSlot::UnselectedBase => p.unselected_base,
        PaletteSlot::UnselectedBackground => p.unselected_background,
        PaletteSlot::UnselectedEmphasis1 => p.unselected_emphasis_1,
        PaletteSlot::UnselectedEmphasis3 => p.unselected_emphasis_3,
    }
}

fn palette_color(p: &ButtonPalette, slot: PaletteSlot) -> (r: ThemeColor)
    ensures
        r == slot_color(*p, slot),
{
    match slot {
        PaletteSlot::TextUnselectedBackground => p.text_unselected_background,
        PaletteSlot::SelectedBase => p.selected_base,
        PaletteSlot::SelectedBackground => p.selected_background,
        PaletteSlot::SelectedEmphasis3 => p.selected_emphasis_3,
        PaletteSlot::UnselectedBase => p.unselected_base,
        PaletteSlot::UnselectedBackground => p.unselected_background,
        PaletteSlot::UnselectedEmphasis1 => p.unselected_emphasis_1,
        PaletteSlot::UnselectedEmphasis3 => p.unselected_emphasis_3,
    }
}

/// One run of styled text: foreground and background colours, boldness, and the text.
#[derive(Clone, Debug)]
pub struct Segment {
    pub foreground: ThemeColor,
    pub background: ThemeColor,
    pub bold: bool,
    pub text: String,
}

impl View for Segment {
    type V = (ThemeColor, ThemeColor, bool, Seq<char>);

    open spec fn view(&self) -> (ThemeColor, ThemeColor, bool, Seq<char>) {
        (self.foreground, self.background, self.bold, self.text@)
    }
}

/// The views of a list of segments.
pub open spec fn segment_views(segments: Seq<Segment>) -> Seq<(ThemeColor, ThemeColor, bool, Seq<char>)> {
    segments.map_values(|s: Segment| s@)
}

/// The text ansi_term writes for a list of styled segments (`ANSIStrings`): each
/// segment's text, with the escapes that move from one segment's style to the next and
/// a reset at the end.
pub uninterp spec fn ansi_segments_text(segments: Seq<(ThemeColor, ThemeColor, bool, Seq<char>)>) -> Seq<char>;

/// Writes styled segments with ansi_term: each becomes an `ANSIString` painted in a
/// `Style` with that foreground, background and boldness, and the list is written out by
/// `ANSIStrings`. Its result is named.
#[verifier::external_body]
fn paint_segments(segments: &Vec<Segment>) -> (r: String)
    ensures
        r@ == ansi_segments_text(segment_views(segments@)),
{
    let colour = |c: ThemeColor| match c {
        ThemeColor::Rgb(r, g, b) => ansi_term::Colour::RGB(r, g, b),
        ThemeColor::EightBit(i) => ansi_term::Colour::Fixed(i),
    };
    let strings: Vec<ansi_term::ANSIString> = segments.iter().map(|s| ansi_term::Style {
        foreground: Some(colour(s.foreground)),
        background: Some(colour(s.background)),
        is_bold: s.bold,
        ..ansi_term::Style::default()
    }.paint(s.text.as_str())).collect();
    ansi_term::ANSIStrings(&strings).to_string()
}

/// A button's segments: the separator in the fill colour on the button background, the
/// bold label in the foreground colour on that background, and the separator again in
/// the background colour on the fill (the arrow out of the button).
pub open spec fn button_segments(fill: ThemeColor, background: ThemeColor, foreground: ThemeColor, separator: Seq<char>, text: Seq<char>) -> Seq<(ThemeColor, ThemeColor, bool, Seq<char>)> {
    seq![(fill, background, false, separator), (foreground, background, true, text), (background, fill, false, separator)]
}

/// Presents a tab bar button: its focus (as `button_focus` decides) and its label painted
/// in the palette colours that `button_style` chooses.
pub fn present_button(label: &str, action: &BuiltinAction, explicit_focus: Option<bool>, tabs: &Vec<TabModel>, palette: &ButtonPalette, arrow_fonts: bool) -> (r: Result<ButtonPresentation, RenderError>)
    requires
        positions_fit(tabs@),
    ensures
        ({
            let focused = button_focus_spec(explicit_focus, *action, tabs@);
            match button_style_spec(label@, *action, focused, tabs@, arrow_fonts) {
                Some((text, separator, foreground, background)) => r matches Ok(p) && p.focused == focused
                    && p.label@ == ansi_segments_text(button_segments(
                        slot_color(*palette, PaletteSlot::TextUnselectedBackground),
                        slot_color(*palette, background),
                        slot_color(*palette, foreground),
                        separator,
                        text,
                    )),
                None => r matches Err(e) && e is InvalidOperation && e->InvalidOperation_0@ == missing_tab_detail(),
            }
        }),
{
    let focused = button_focus(explicit_focus, action, tabs);
    let style = match button_style(label, action, focused, tabs, arrow_fonts) {
        Ok(s) => s,
        Err(e) => return Err(e),
    };
    let fill = palette_color(palette, style.fill);
    let background = palette_color(palette, style.background);
    let foreground = palette_color(palette, style.foreground);
    let mut segments: Vec<Segment> = Vec::new();
    segments.push(Segment { foreground: fill, background, bold: false, text: style.separator.clone() });
    segments.push(Segment { foreground, background, bold: true, text: style.text });
    segments.push(Segment { foreground: background, background: fill, bold: false, text: style.separator });
    let painted = paint_segments(&segments);
    proof {
        assert(segment_views(segments@) =~= button_segments(fill, background, foreground, style.separator@, style.text@));
    }
    Ok(ButtonPresentation { label: painted, focused })
}

/// What a tab bar event came to, as far as repainting goes.
#[derive(Clone, Copy, Debug, PartialEq, Eq, Structural)]
pub enum TabBarUpdate {
    /// A permission answer, a mounted host folder, or a failed mount.
    Mount,
    /// New mode information; `changed` when it differs from what was shown.
    Mode { changed: bool },
    /// A new list of tabs.
    Tabs,
    /// A new list of panes.
    Panes,
    /// A timer fired; `expired` when it was the outstanding refresh.
    Timer { expired: bool },
    /// A click, handed to the clicked action.
    Click,
    /// Any other event.
    Other,
}

/// Whether the tab bar repaints after an update: always after mounting steps and a new
/// tab list (closing the last tab must clear the bar); after changed mode information or
/// the outstanding refresh timer only while there are tabs to show; never otherwise.
pub open spec fn repaint_spec(update: TabBarUpdate, has_tabs: bool) -> bool {
    match update {
        TabBarUpdate::Mount => true,
        TabBarUpdate::Mode { changed } => changed && has_tabs,
        TabBarUpdate::Tabs => true,
        TabBarUpdate::Panes => false,
        TabBarUpdate::Timer { expired } => expired && has_tabs,
        TabBarUpdate::Click => false,
        TabBarUpdate::Other => false,
    }
}

/// Whether the tab bar repaints after an update, with `has_tabs` telling whether it has
/// tabs to show.
pub fn should_repaint(update: TabBarUpdate, has_tabs: bool) -> (r: bool)
    ensures
        r == repaint_spec(update, has_tabs),
{
    match update {
        TabBarUpdate::Mount => true,
        TabBarUpdate::Mode { changed } => changed && has_tabs,
        TabBarUpdate::Tabs => true,
        TabBarUpdate::Panes => false,
        TabBarUpdate::Timer { expired } => expired && has_tabs,
        TabBarUpdate::Click => false,
        TabBarUpdate::Other => false,
    }
}

/// What the host reports while an external template's directory is being mounted.
#[derive(Clone, Debug, PartialEq, Eq)]
pub enum MountEvent {
    PermissionGranted,
    PermissionDenied,
    HostFolderChanged,
    MountFailed(Option<String>),
}

/// What the plugin does next in mounting an external template.
#[derive(Clone, Debug, PartialEq, Eq)]
pub enum MountStep {
    /// Nothing is being mounted; the event is not about a template.
    Nothing,
    /// Ask the host to mount this directory.
    ChangeHostFolder(String),
    /// The directory is mounted: load the renderer from the pending configuration.
    LoadRenderer,
    /// Mounting failed; show this error.
    Fail(String),
}

/// The failure shown when the host refuses file access.
pub open spec fn permission_denied_detail() -> Seq<char> {
    "template_file requires FullHdAccess permission"@
}

/// The failure shown when the host cannot mount the directory and gives no reason.
pub open spec fn mount_failed_detail() -> Seq<char> {
    "failed to mount host filesystem for template_file"@
}

/// Advances the mounting of a pending external template: granted permission asks for the
/// directory, denied permission and a failed mount give up with an error, a changed host
/// folder loads the renderer; without a pending template nothing happens.
pub fn mount_step(pending: &mut Option<ExternalTemplate>, event: MountEvent) -> (r: MountStep)
    ensures
        *old(pending) is None ==> r == MountStep::Nothing && *final(pending) is None,
        *old(pending) matches Some(t) ==> match event {
            MountEvent::PermissionGranted => r matches MountStep::ChangeHostFolder(f) && f@ == t.host_folder@
                && *final(pending) == *old(pending),
            MountEvent::PermissionDenied => r matches MountStep::Fail(m) && m@ == permission_denied_detail()
                && *final(pending) is None,
            MountEvent::HostFolderChanged => r == MountStep::LoadRenderer && *final(pending) is None,
            MountEvent::MountFailed(reason) => *final(pending) is None && (r matches MountStep::Fail(m) && match reason {
                Some(why) => m@ == why@,
                None => m@ == mount_failed_detail(),
            }),
        },
{
    let folder = match pending {
        None => return MountStep::Nothing,
        Some(t) => string_of(chars_of(t.host_folder.as_str()).as_slice()),
    };
    match event {
        MountEvent::PermissionGranted => MountStep::ChangeHostFolder(folder),
        MountEvent::PermissionDenied => {
            *pending = None;
            MountStep::Fail(string_of(chars_of("template_file requires FullHdAccess permission").as_slice()))
        },
        MountEvent::HostFolderChanged => {
            *pending = None;
            MountStep::LoadRenderer
        },
        MountEvent::MountFailed(reason) => {
            *pending = None;
            match reason {
                Some(why) => MountStep::Fail(why),
                None => MountStep::Fail(string_of(chars_of("failed to mount host filesystem for template_file").as_slice())),
            }
        },
    }
}

} // verus!
