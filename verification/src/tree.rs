//! The typed configuration tree produced by the configuration-source parser,
//! together with the small value types that are shared verbatim between the
//! tree and its flat exported counterpart.

use vstd::prelude::*;

verus! {

use crate::TERMINATOR;

/// An RGBA color, carried through the export unchanged.
#[derive(Clone, Copy, PartialEq, Eq, Structural, Debug)]
pub struct AwcColor {
    pub r: u8,
    pub g: u8,
    pub b: u8,
    pub a: u8,
}

/// A keyboard modifier. Declaration order fixes the exported discriminants.
#[derive(Clone, Copy, PartialEq, Eq, Structural, Debug)]
pub enum AwcModifier {
    Alt,
    Ctrl,
    Logo,
    Mod5,
    Shift,
}

/// A pointer button. Declaration order fixes the exported discriminants.
#[derive(Clone, Copy, PartialEq, Eq, Structural, Debug)]
pub enum AwcButton {
    Left,
    Right,
}

/// What a pointer button binding does.
#[derive(Clone, Copy, PartialEq, Eq, Structural, Debug)]
pub enum AwcButtonAction {
    Move,
    Resize,
    ResizeByFrame,
}

/// Which kind of keyboard a keyboard configuration applies to.
#[derive(Clone, Copy, PartialEq, Eq, Structural, Debug)]
pub enum AwcKeyboardType {
    Builtin,
    External,
}

/// A reflection axis for layout operations.
#[derive(Clone, Copy, PartialEq, Eq, Structural, Debug)]
pub enum AwcDirection {
    Horizontal,
    Vertical,
}

/// One step of the composable layout algebra. The sequence of these is
/// consumed left to right by the host, so order is significant. The split
/// ratio and delta of `TwoPane` are carried as the raw bit patterns of the
/// host's double-precision values; this layer never interprets them.
#[derive(Clone, Copy, PartialEq, Eq, Structural, Debug)]
pub enum AwcLayoutOp {
    Choose,
    Full,
    TwoPane { split_bits: u64, delta_bits: u64 },
    Reflected(AwcDirection),
    Rotated,
    Push,
}

/// Which window a button binding acts on.
#[derive(Clone, Copy, PartialEq, Eq, Structural, Debug)]
pub enum AwcWindowSelection {
    Focused,
    UnderCursor,
}

/// The HUD color block, carried through the export unchanged.
#[derive(Clone, Copy, PartialEq, Eq, Structural, Debug)]
pub struct AwcOutputHudConfig {
    pub active_background_color: AwcColor,
    pub active_foreground_color: AwcColor,
    pub inactive_background_color: AwcColor,
    pub inactive_foreground_color: AwcColor,
}

impl AwcModifier {
    /// The stable discriminant of this modifier, assigned by declaration
    /// order; the ordering is part of the export contract.
    pub open spec fn spec_tag(self) -> u8 {
        match self {
            AwcModifier::Alt => 0,
            AwcModifier::Ctrl => 1,
            AwcModifier::Logo => 2,
            AwcModifier::Mod5 => 3,
            AwcModifier::Shift => 4,
        }
    }

    /// Returns the stable discriminant read by the host.
    pub fn tag(&self) -> (r: u8)
        ensures
            r == self.spec_tag(),
    {
        match self {
            AwcModifier::Alt => 0,
            AwcModifier::Ctrl => 1,
            AwcModifier::Logo => 2,
            AwcModifier::Mod5 => 3,
            AwcModifier::Shift => 4,
        }
    }
}

impl AwcButton {
    /// The stable discriminant of this button, assigned by declaration order.
    pub open spec fn spec_tag(self) -> u8 {
        match self {
            AwcButton::Left => 0,
            AwcButton::Right => 1,
        }
    }

    /// Returns the stable discriminant read by the host.
    pub fn tag(&self) -> (r: u8)
        ensures
            r == self.spec_tag(),
    {
        match self {
            AwcButton::Left => 0,
            AwcButton::Right => 1,
        }
    }
}

impl AwcButtonAction {
    /// The stable discriminant of this button action, assigned by
    /// declaration order.
    pub open spec fn spec_tag(self) -> u8 {
        match self {
            AwcButtonAction::Move => 0,
            AwcButtonAction::Resize => 1,
            AwcButtonAction::ResizeByFrame => 2,
        }
    }

    /// Returns the stable discriminant read by the host.
    pub fn tag(&self) -> (r: u8)
        ensures
            r == self.spec_tag(),
    {
        match self {
            AwcButtonAction::Move => 0,
            AwcButtonAction::Resize => 1,
            AwcButtonAction::ResizeByFrame => 2,
        }
    }
}

impl AwcKeyboardType {
    /// The stable discriminant of this keyboard type, assigned by
    /// declaration order.
    pub open spec fn spec_tag(self) -> u8 {
        match self {
            AwcKeyboardType::Builtin => 0,
            AwcKeyboardType::External => 1,
        }
    }

    /// Returns the stable discriminant read by the host.
    pub fn tag(&self) -> (r: u8)
        ensures
            r == self.spec_tag(),
    {
        match self {
            AwcKeyboardType::Builtin => 0,
            AwcKeyboardType::External => 1,
        }
    }
}

impl AwcDirection {
    /// The stable discriminant of this direction, assigned by declaration
    /// order.
    pub open spec fn spec_tag(self) -> u8 {
        match self {
            AwcDirection::Horizontal => 0,
            AwcDirection::Vertical => 1,
        }
    }

    /// Returns the stable discriminant read by the host.
    pub fn tag(&self) -> (r: u8)
        ensures
            r == self.spec_tag(),
    {
        match self {
            AwcDirection::Horizontal => 0,
            AwcDirection::Vertical => 1,
        }
    }
}

impl AwcLayoutOp {
    /// The stable discriminant of this layout operation, assigned by
    /// declaration order.
    pub open spec fn spec_tag(self) -> u8 {
        match self {
            AwcLayoutOp::Choose => 0,
            AwcLayoutOp::Full => 1,
            AwcLayoutOp::TwoPane { .. } => 2,
            AwcLayoutOp::Reflected(_) => 3,
            AwcLayoutOp::Rotated => 4,
            AwcLayoutOp::Push => 5,
        }
    }

    /// Returns the stable discriminant read by the host.
    pub fn tag(&self) -> (r: u8)
        ensures
            r == self.spec_tag(),
    {
        match self {
            AwcLayoutOp::Choose => 0,
            AwcLayoutOp::Full => 1,
            AwcLayoutOp::TwoPane { .. } => 2,
            AwcLayoutOp::Reflected(_) => 3,
            AwcLayoutOp::Rotated => 4,
            AwcLayoutOp::Push => 5,
        }
    }
}

impl AwcWindowSelection {
    /// The stable discriminant of this window selection, assigned by
    /// declaration order.
    pub open spec fn spec_tag(self) -> u8 {
        match self {
            AwcWindowSelection::Focused => 0,
            AwcWindowSelection::UnderCursor => 1,
        }
    }

    /// Returns the stable discriminant read by the host.
    pub fn tag(&self) -> (r: u8)
        ensures
            r == self.spec_tag(),
    {
        match self {
            AwcWindowSelection::Focused => 0,
            AwcWindowSelection::UnderCursor => 1,
        }
    }
}

/// Names the text field whose payload contained the terminator byte and
/// therefore made an export fail.
#[derive(Clone, Copy, PartialEq, Eq, Structural, Debug)]
pub enum TextField {
    ExecuteCommand,
    GreedyViewTarget,
    MoveTarget,
    SwapWorkspaceTag,
    ViewTarget,
    KeySymbol,
    KeyboardLayout,
    OutputName,
    Workspace,
    DisplayErrorCmd,
    Font,
}

impl TextField {
    /// How the error message names this field.
    pub open spec fn spec_description(self) -> Seq<char> {
        match self {
            TextField::ExecuteCommand => "execute command"@,
            TextField::GreedyViewTarget => "greedyView target"@,
            TextField::MoveTarget => "move target"@,
            TextField::SwapWorkspaceTag => "swap workspace tag"@,
            TextField::ViewTarget => "view target"@,
            TextField::KeySymbol => "Key symbol"@,
            TextField::KeyboardLayout => "keyboard layout"@,
            TextField::OutputName => "output name"@,
            TextField::Workspace => "workspace"@,
            TextField::DisplayErrorCmd => "displayErrorCmd"@,
            TextField::Font => "font"@,
        }
    }

    /// Names this field as the error message does.
    pub fn description(&self) -> (r: &'static str)
        ensures
            r@ == self.spec_description(),
    {
        match self {
            TextField::ExecuteCommand => "execute command",
            TextField::GreedyViewTarget => "greedyView target",
            TextField::MoveTarget => "move target",
            TextField::SwapWorkspaceTag => "swap workspace tag",
            TextField::ViewTarget => "view target",
            TextField::KeySymbol => "Key symbol",
            TextField::KeyboardLayout => "keyboard layout",
            TextField::OutputName => "output name",
            TextField::Workspace => "workspace",
            TextField::DisplayErrorCmd => "displayErrorCmd",
            TextField::Font => "font",
        }
    }
}

/// The error an export fails with: a text payload contained the terminator
/// byte. The export is all-or-nothing, so no allocation survives it.
#[derive(Clone, Copy, PartialEq, Eq, Structural, Debug)]
pub struct EncodeError {
    pub field: TextField,
}

/// A command the compositor runs in reaction to a key binding.
/// Variants carry no payload, one text payload, or one small integer.
pub enum Action {
    Close,
    ConfigReload,
    Execute(Vec<u8>),
    Expand,
    FocusDown,
    FocusUp,
    FocusOutput(u8),
    FocusPrimary,
    GreedyView(Vec<u8>),
    MoveTo(Vec<u8>),
    MoveToOutput(u8),
    ResetLayouts,
    Shrink,
    Sink,
    SwapDown,
    SwapUp,
    SwapPrimary,
    SwitchVT(u8),
    NextLayout,
    SwapWorkspaces,
    SwapWorkspaceTagWith(Vec<u8>),
    View(Vec<u8>),
}

/// A key trigger: either a raw key code or a symbolic key name.
pub enum Key {
    Code(u32),
    Sym(Vec<u8>),
}

/// A pointer button binding.
pub struct ButtonBinding {
    pub mods: Vec<AwcModifier>,
    pub button: AwcButton,
    pub action: AwcButtonAction,
    pub window: AwcWindowSelection,
}

/// A key binding.
pub struct KeyBinding {
    pub mods: Vec<AwcModifier>,
    pub key: Key,
    pub action: Action,
}

/// Configuration for one class of keyboards.
pub struct KeyboardConfig {
    pub layout: Vec<u8>,
    pub type_: AwcKeyboardType,
}

/// Configuration for one output. The scale is carried as the raw bit pattern
/// of the host's single-precision value; this layer never interprets it.
pub struct OutputConfig {
    pub name: Vec<u8>,
    pub x: i32,
    pub y: i32,
    pub scale_bits: u32,
}

/// The root of the typed configuration tree.
pub struct Config {
    pub border_width: u32,
    pub active_border_color: AwcColor,
    pub inactive_border_color: AwcColor,
    pub font: Vec<u8>,
    pub modifier: AwcModifier,
    pub display_error_cmd: Vec<u8>,
    pub button_bindings: Vec<ButtonBinding>,
    pub key_bindings: Vec<KeyBinding>,
    pub keyboards: Vec<KeyboardConfig>,
    pub layout: Vec<AwcLayoutOp>,
    pub outputs: Vec<OutputConfig>,
    pub output_hud: AwcOutputHudConfig,
    pub workspaces: Vec<Vec<u8>>,
}

/// A text payload can be exported exactly when it is free of the terminator.
pub open spec fn text_ok(t: Seq<u8>) -> bool {
    !t.contains(TERMINATOR)
}

impl Action {
    /// The text payload of this action, if its variant carries one, with the
    /// field name it is reported under on failure.
    pub open spec fn text_payload(self) -> Option<(Seq<u8>, TextField)> {
        match self {
            Action::Execute(cmd) => Some((cmd@, TextField::ExecuteCommand)),
            Action::GreedyView(ws) => Some((ws@, TextField::GreedyViewTarget)),
            Action::MoveTo(ws) => Some((ws@, TextField::MoveTarget)),
            Action::SwapWorkspaceTagWith(ws) => Some((ws@, TextField::SwapWorkspaceTag)),
            Action::View(ws) => Some((ws@, TextField::ViewTarget)),
            _ => None,
        }
    }

    /// The first encoding failure converting this action, if any.
    pub open spec fn first_error(self) -> Option<TextField> {
        match self.text_payload() {
            Some((t, f)) => if !text_ok(t) {
                Some(f)
            } else {
                None
            },
            None => None,
        }
    }
}

impl KeyBinding {
    /// The first encoding failure converting this key binding, if any:
    /// the symbolic key name is converted before the action.
    pub open spec fn first_error(self) -> Option<TextField> {
        match self.key {
            Key::Sym(sym) => if !text_ok(sym@) {
                Some(TextField::KeySymbol)
            } else {
                self.action.first_error()
            },
            Key::Code(_) => self.action.first_error(),
        }
    }
}

impl KeyboardConfig {
    /// The encoding failure converting this keyboard configuration, if any.
    pub open spec fn first_error(self) -> Option<TextField> {
        if !text_ok(self.layout@) {
            Some(TextField::KeyboardLayout)
        } else {
            None
        }
    }
}

impl OutputConfig {
    /// The encoding failure converting this output configuration, if any.
    pub open spec fn first_error(self) -> Option<TextField> {
        if !text_ok(self.name@) {
            Some(TextField::OutputName)
        } else {
            None
        }
    }
}

/// The first conversion failure among a sequence of key bindings.
pub open spec fn first_key_error(s: Seq<KeyBinding>) -> Option<TextField>
    decreases s.len(),
{
    if s.len() == 0 {
        None
    } else if s[0].first_error() is Some {
        s[0].first_error()
    } else {
        first_key_error(s.drop_first())
    }
}

/// The first conversion failure among a sequence of keyboard configurations.
pub open spec fn first_keyboard_error(s: Seq<KeyboardConfig>) -> Option<TextField>
    decreases s.len(),
{
    if s.len() == 0 {
        None
    } else if s[0].first_error() is Some {
        s[0].first_error()
    } else {
        first_keyboard_error(s.drop_first())
    }
}

/// The first conversion failure among a sequence of output configurations.
pub open spec fn first_output_error(s: Seq<OutputConfig>) -> Option<TextField>
    decreases s.len(),
{
    if s.len() == 0 {
        None
    } else if s[0].first_error() is Some {
        s[0].first_error()
    } else {
        first_output_error(s.drop_first())
    }
}

/// The first workspace tag containing the terminator, reported as an error.
pub open spec fn first_workspace_error(s: Seq<Vec<u8>>) -> Option<TextField>
    decreases s.len(),
{
    if s.len() == 0 {
        None
    } else if !text_ok(s[0]@) {
        Some(TextField::Workspace)
    } else {
        first_workspace_error(s.drop_first())
    }
}

impl Config {
    /// The first encoding failure an export of this tree runs into, if any,
    /// in traversal order: key bindings, keyboards, outputs, workspaces, the
    /// error-display command, the font. Button bindings and layout operations
    /// carry no text and cannot fail.
    pub open spec fn first_error(self) -> Option<TextField> {
        let key_err = first_key_error(self.key_bindings@);
        let keyboard_err = first_keyboard_error(self.keyboards@);
        let output_err = first_output_error(self.outputs@);
        let workspace_err = first_workspace_error(self.workspaces@);
        if key_err is Some {
            key_err
        } else if keyboard_err is Some {
            keyboard_err
        } else if output_err is Some {
            output_err
        } else if workspace_err is Some {
            workspace_err
        } else if !text_ok(self.display_error_cmd@) {
            Some(TextField::DisplayErrorCmd)
        } else if !text_ok(self.font@) {
            Some(TextField::Font)
        } else {
            None
        }
    }
}

pub proof fn lemma_first_key_error_none(s: Seq<KeyBinding>)
    requires
        forall|j: int| 0 <= j < s.len() ==> (#[trigger] s[j].first_error()) is None,
    ensures
        first_key_error(s) is None,
    decreases s.len(),
{
    if s.len() > 0 {
        lemma_first_key_error_none(s.drop_first());
    }
}

pub proof fn lemma_first_key_error_at(s: Seq<KeyBinding>, i: int)
    requires
        0 <= i < s.len(),
        forall|j: int| 0 <= j < i ==> (#[trigger] s[j].first_error()) is None,
        s[i].first_error() is Some,
    ensures
        first_key_error(s) == s[i].first_error(),
    decreases s.len(),
{
    if i > 0 {
        lemma_first_key_error_at(s.drop_first(), i - 1);
    }
}

pub proof fn lemma_first_keyboard_error_none(s: Seq<KeyboardConfig>)
    requires
        forall|j: int| 0 <= j < s.len() ==> (#[trigger] s[j].first_error()) is None,
    ensures
        first_keyboard_error(s) is None,
    decreases s.len(),
{
    if s.len() > 0 {
        lemma_first_keyboard_error_none(s.drop_first());
    }
}

pub proof fn lemma_first_keyboard_error_at(s: Seq<KeyboardConfig>, i: int)
    requires
        0 <= i < s.len(),
        forall|j: int| 0 <= j < i ==> (#[trigger] s[j].first_error()) is None,
        s[i].first_error() is Some,
    ensures
        first_keyboard_error(s) == s[i].first_error(),
    decreases s.len(),
{
    if i > 0 {
        lemma_first_keyboard_error_at(s.drop_first(), i - 1);
    }
}

pub proof fn lemma_first_output_error_none(s: Seq<OutputConfig>)
    requires
        forall|j: int| 0 <= j < s.len() ==> (#[trigger] s[j].first_error()) is None,
    ensures
        first_output_error(s) is None,
    decreases s.len(),
{
    if s.len() > 0 {
        lemma_first_output_error_none(s.drop_first());
    }
}

pub proof fn lemma_first_output_error_at(s: Seq<OutputConfig>, i: int)
    requires
        0 <= i < s.len(),
        forall|j: int| 0 <= j < i ==> (#[trigger] s[j].first_error()) is None,
        s[i].first_error() is Some,
    ensures
        first_output_error(s) == s[i].first_error(),
    decreases s.len(),
{
    if i > 0 {
        lemma_first_output_error_at(s.drop_first(), i - 1);
    }
}

pub proof fn lemma_first_workspace_error_none(s: Seq<Vec<u8>>)
    requires
        forall|j: int| 0 <= j < s.len() ==> text_ok(#[trigger] s[j]@),
    ensures
        first_workspace_error(s) is None,
    decreases s.len(),
{
    if s.len() > 0 {
        lemma_first_workspace_error_none(s.drop_first());
    }
}

pub proof fn lemma_first_workspace_error_at(s: Seq<Vec<u8>>, i: int)
    requires
        0 <= i < s.len(),
        forall|j: int| 0 <= j < i ==> text_ok(#[trigger] s[j]@),
        !text_ok(s[i]@),
    ensures
        first_workspace_error(s) == Some(TextField::Workspace),
    decreases s.len(),
{
    if i > 0 {
        lemma_first_workspace_error_at(s.drop_first(), i - 1);
    }
}

} // verus!
