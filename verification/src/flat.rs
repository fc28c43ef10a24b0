//! The flat, field-addressable counterparts of the configuration tree.
//!
//! Every growable collection of the tree becomes an (array handle, element
//! count) pair and every text value an owned string handle; the handles index
//! allocations of an [`crate::arena::Arena`], which owns the exported data
//! exactly as a foreign host owns pointer-and-length pairs. A missing text
//! payload is the `None` sentinel, which teardown tolerates without freeing.

use vstd::prelude::*;

verus! {

use crate::tree::{AwcButton, AwcButtonAction, AwcColor, AwcKeyboardType, AwcModifier,
    AwcOutputHudConfig, AwcWindowSelection};

/// A flattened action: one field per variant of the action sum type, with
/// exactly one field active per logical value, so that the host can address
/// fields directly instead of dispatching on a tag.
#[derive(Clone, Copy, PartialEq, Eq, Structural, Debug)]
pub struct AwcAction {
    pub execute: Option<usize>,
    pub expand: bool,
    pub close: bool,
    pub config_reload: bool,
    pub focus_down: bool,
    pub focus_up: bool,
    pub focus_primary: bool,
    pub focus_output: u8,
    pub greedy_view: Option<usize>,
    pub shrink: bool,
    pub sink: bool,
    pub swap_down: bool,
    pub swap_up: bool,
    pub swap_primary: bool,
    pub swap_workspaces: bool,
    pub swap_workspace_tag_with: Option<usize>,
    pub next_layout: bool,
    pub reset_layouts: bool,
    pub move_to: Option<usize>,
    pub move_to_output: u8,
    pub switch_vt: u8,
    pub view: Option<usize>,
}

/// A flattened button binding; `mods` is the handle of an owned modifier
/// array of length `number_of_mods`.
#[derive(Clone, Copy, PartialEq, Eq, Structural, Debug)]
pub struct AwcButtonBinding {
    pub mods: usize,
    pub number_of_mods: usize,
    pub button: AwcButton,
    pub action: AwcButtonAction,
    pub window: AwcWindowSelection,
}

/// A flattened key binding. A key is either a raw code (with `sym` the null
/// sentinel) or a symbolic name (with `code` zero and `sym` an owned string).
#[derive(Clone, Copy, PartialEq, Eq, Structural, Debug)]
pub struct AwcKeyBinding {
    pub action: AwcAction,
    pub mods: usize,
    pub number_of_mods: usize,
    pub code: u32,
    pub sym: Option<usize>,
}

/// A flattened keyboard configuration; `layout` is an owned string handle.
#[derive(Clone, Copy, PartialEq, Eq, Structural, Debug)]
pub struct AwcKeyboardConfig {
    pub layout: usize,
    pub type_: AwcKeyboardType,
}

/// A flattened output configuration; `name` is an owned string handle and
/// `scale_bits` the raw bit pattern of the host's single-precision scale.
#[derive(Clone, Copy, PartialEq, Eq, Structural, Debug)]
pub struct AwcOutputConfig {
    pub name: usize,
    pub x: i32,
    pub y: i32,
    pub scale_bits: u32,
}

/// The exported root: scalar configuration fields plus, per collection, an
/// (owned array handle, element count) pair. Every allocation reachable from
/// it is owned by it exclusively from a successful export until the single
/// matching teardown call.
#[derive(Clone, Copy, PartialEq, Eq, Structural, Debug)]
pub struct AwcConfig {
    pub active_border_color: AwcColor,
    pub inactive_border_color: AwcColor,
    pub border_width: u32,
    pub display_error_cmd: usize,
    pub font: usize,
    pub modifier: AwcModifier,
    pub output_hud: AwcOutputHudConfig,
    pub button_bindings: usize,
    pub number_of_button_bindings: usize,
    pub key_bindings: usize,
    pub number_of_key_bindings: usize,
    pub keyboards: usize,
    pub number_of_keyboards: usize,
    pub layout: usize,
    pub number_of_layout_ops: usize,
    pub outputs: usize,
    pub number_of_outputs: usize,
    pub workspaces: usize,
    pub number_of_workspaces: usize,
}

/// The handle sequence of an optional string: empty for the null sentinel.
pub open spec fn opt_handle(o: Option<usize>) -> Seq<int> {
    match o {
        Option::Some(h) => seq![h as int],
        Option::None => seq![],
    }
}

impl AwcAction {
    /// The owned string handles of a flattened action, in teardown order.
    pub open spec fn handles(self) -> Seq<int> {
        opt_handle(self.execute) + opt_handle(self.greedy_view) + opt_handle(
            self.swap_workspace_tag_with,
        ) + opt_handle(self.move_to) + opt_handle(self.view)
    }

    /// How many of the per-variant fields are active: text fields that are
    /// not the null sentinel, flags that are set, small integers that are
    /// not zero. A flattened action has at most one.
    pub open spec fn active_count(self) -> int {
        (if self.execute is Some {
            1int
        } else {
            0int
        }) + (if self.expand {
            1int
        } else {
            0int
        }) + (if self.close {
            1int
        } else {
            0int
        }) + (if self.config_reload {
            1int
        } else {
            0int
        }) + (if self.focus_down {
            1int
        } else {
            0int
        }) + (if self.focus_up {
            1int
        } else {
            0int
        }) + (if self.focus_primary {
            1int
        } else {
            0int
        }) + (if self.focus_output != 0 {
            1int
        } else {
            0int
        }) + (if self.greedy_view is Some {
            1int
        } else {
            0int
        }) + (if self.shrink {
            1int
        } else {
            0int
        }) + (if self.sink {
            1int
        } else {
            0int
        }) + (if self.swap_down {
            1int
        } else {
            0int
        }) + (if self.swap_up {
            1int
        } else {
            0int
        }) + (if self.swap_primary {
            1int
        } else {
            0int
        }) + (if self.swap_workspaces {
            1int
        } else {
            0int
        }) + (if self.swap_workspace_tag_with is Some {
            1int
        } else {
            0int
        }) + (if self.next_layout {
            1int
        } else {
            0int
        }) + (if self.reset_layouts {
            1int
        } else {
            0int
        }) + (if self.move_to is Some {
            1int
        } else {
            0int
        }) + (if self.move_to_output != 0 {
            1int
        } else {
            0int
        }) + (if self.switch_vt != 0 {
            1int
        } else {
            0int
        }) + (if self.view is Some {
            1int
        } else {
            0int
        })
    }
}

/// The flattened action with no field active: every flag clear, every small
/// integer zero, every text field the null sentinel.
pub open spec fn blank_action() -> AwcAction {
    AwcAction {
        execute: Option::None,
        expand: false,
        close: false,
        config_reload: false,
        focus_down: false,
        focus_up: false,
        focus_primary: false,
        focus_output: 0,
        greedy_view: Option::None,
        shrink: false,
        sink: false,
        swap_down: false,
        swap_up: false,
        swap_primary: false,
        swap_workspaces: false,
        swap_workspace_tag_with: Option::None,
        next_layout: false,
        reset_layouts: false,
        move_to: Option::None,
        move_to_output: 0,
        switch_vt: 0,
        view: Option::None,
    }
}

/// Builds the flattened action with no field active.
pub fn new_blank_action() -> (r: AwcAction)
    ensures
        r == blank_action(),
{
    AwcAction {
        execute: None,
        expand: false,
        close: false,
        config_reload: false,
        focus_down: false,
        focus_up: false,
        focus_primary: false,
        focus_output: 0,
        greedy_view: None,
        shrink: false,
        sink: false,
        swap_down: false,
        swap_up: false,
        swap_primary: false,
        swap_workspaces: false,
        swap_workspace_tag_with: None,
        next_layout: false,
        reset_layouts: false,
        move_to: None,
        move_to_output: 0,
        switch_vt: 0,
        view: None,
    }
}

impl AwcButtonBinding {
    /// The handles a flattened button binding owns: its modifier array.
    pub open spec fn handles(self) -> Seq<int> {
        seq![self.mods as int]
    }
}

impl AwcKeyBinding {
    /// The handles a flattened key binding owns, in teardown order: the
    /// modifier array, the symbolic key name, the action's strings.
    pub open spec fn handles(self) -> Seq<int> {
        seq![self.mods as int] + opt_handle(self.sym) + self.action.handles()
    }
}

impl AwcKeyboardConfig {
    /// The handles a flattened keyboard configuration owns: its layout string.
    pub open spec fn handles(self) -> Seq<int> {
        seq![self.layout as int]
    }
}

impl AwcOutputConfig {
    /// The handles a flattened output configuration owns: its name string.
    pub open spec fn handles(self) -> Seq<int> {
        seq![self.name as int]
    }
}

} // verus!
