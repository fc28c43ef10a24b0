//! The schema mapper and its teardown mirror.
//!
//! `Config::export` walks the typed tree in declaration order and produces a
//! flat [`AwcConfig`] whose collections and strings live in an [`Arena`]. The
//! export is all-or-nothing: it either returns a well-formed root owning
//! exactly the allocations reachable from it, or fails on the first text
//! payload containing the terminator byte and releases everything it had
//! already allocated. `awc_config_free` is the structural inverse: it frees
//! every allocation reachable from a root exactly once.

use vstd::prelude::*;

verus! {

use crate::arena::{Allocation, Arena};
use crate::flat::{opt_handle, AwcAction, AwcButtonBinding, AwcConfig, AwcKeyBinding,
    AwcKeyboardConfig, AwcOutputConfig};
use crate::tree::{text_ok, Action, ButtonBinding, Config, EncodeError, Key, KeyBinding,
    KeyboardConfig, OutputConfig, TextField};
use crate::{contains_terminator, copy_vec};

/// `a1` is `a0` with zero or more further allocations: every slot of `a0`
/// keeps its contents and its liveness.
pub open spec fn grew(a0: Arena, a1: Arena) -> bool {
    &&& a1.wf()
    &&& a0.len() <= a1.len()
    &&& forall|i: int| 0 <= i < a0.len() ==> a1.alloc_at(i) == a0.alloc_at(i)
    &&& forall|i: int| 0 <= i < a0.len() ==> (a1.is_live(i) <==> a0.is_live(i))
}

/// Going from `a0` to `a1`, the live allocations gained are exactly the
/// handles `hs`: each is fresh and live, and nothing else newly live exists.
pub open spec fn new_live_exactly(a0: Arena, a1: Arena, hs: Seq<int>) -> bool {
    &&& forall|j: int|
        0 <= j < hs.len() ==> a0.len() <= #[trigger] hs[j] < a1.len() && a1.is_live(hs[j])
    &&& forall|h: int| a0.len() <= h < a1.len() && a1.is_live(h) ==> hs.contains(h)
}

/// A live, terminator-free owned string.
pub open spec fn text_handle_wf(h: usize, ar: Arena) -> bool {
    &&& ar.is_live(h as int)
    &&& ar.alloc_at(h as int) is Text
    &&& text_ok(ar.text_at(h as int))
}

/// An optional owned string: the null sentinel, or a live owned string.
pub open spec fn opt_text_wf(o: Option<usize>, ar: Arena) -> bool {
    match o {
        Option::Some(h) => text_handle_wf(h, ar),
        Option::None => true,
    }
}

/// An optional owned string agrees with an optional tree payload: the null
/// sentinel exactly when the payload is absent, its bytes otherwise.
pub open spec fn opt_text_matches(o: Option<usize>, t: Option<Seq<u8>>, ar: Arena) -> bool {
    match t {
        Option::Some(s) => o is Some && ar.text_at(o->0 as int) == s,
        Option::None => o is None,
    }
}

/// A flattened action is well-formed: its text fields are null or live owned
/// strings, and at most one of its per-variant fields is active.
pub open spec fn action_wf(a: AwcAction, ar: Arena) -> bool {
    &&& opt_text_wf(a.execute, ar)
    &&& opt_text_wf(a.greedy_view, ar)
    &&& opt_text_wf(a.swap_workspace_tag_with, ar)
    &&& opt_text_wf(a.move_to, ar)
    &&& opt_text_wf(a.view, ar)
    &&& a.active_count() <= 1
}

/// The flattened action `f` encodes the tree action `a`: every flag mirrors
/// its variant, every small integer its payload, every text field its text.
pub open spec fn action_matches(f: AwcAction, a: Action, ar: Arena) -> bool {
    &&& f.close == (a is Close)
    &&& f.config_reload == (a is ConfigReload)
    &&& f.expand == (a is Expand)
    &&& f.focus_down == (a is FocusDown)
    &&& f.focus_up == (a is FocusUp)
    &&& f.focus_primary == (a is FocusPrimary)
    &&& f.shrink == (a is Shrink)
    &&& f.sink == (a is Sink)
    &&& f.swap_down == (a is SwapDown)
    &&& f.swap_up == (a is SwapUp)
    &&& f.swap_primary == (a is SwapPrimary)
    &&& f.swap_workspaces == (a is SwapWorkspaces)
    &&& f.next_layout == (a is NextLayout)
    &&& f.reset_layouts == (a is ResetLayouts)
    &&& f.focus_output == (if a is FocusOutput {
        a->FocusOutput_0
    } else {
        0
    })
    &&& f.move_to_output == (if a is MoveToOutput {
        a->MoveToOutput_0
    } else {
        0
    })
    &&& f.switch_vt == (if a is SwitchVT {
        a->SwitchVT_0
    } else {
        0
    })
    &&& opt_text_matches(
        f.execute,
        if a is Execute {
            Some(a->Execute_0@)
        } else {
            None
        },
        ar,
    )
    &&& opt_text_matches(
        f.greedy_view,
        if a is GreedyView {
            Some(a->GreedyView_0@)
        } else {
            None
        },
        ar,
    )
    &&& opt_text_matches(
        f.swap_workspace_tag_with,
        if a is SwapWorkspaceTagWith {
            Some(a->SwapWorkspaceTagWith_0@)
        } else {
            None
        },
        ar,
    )
    &&& opt_text_matches(
        f.move_to,
        if a is MoveTo {
            Some(a->MoveTo_0@)
        } else {
            None
        },
        ar,
    )
    &&& opt_text_matches(
        f.view,
        if a is View {
            Some(a->View_0@)
        } else {
            None
        },
        ar,
    )
}

/// Materializes a text payload as an owned, terminator-delimited string in
/// the arena, or fails naming `descr` if the payload contains the terminator
/// byte, allocating nothing.
fn str_to_c_char(value: &Vec<u8>, descr: TextField, arena: &mut Arena) -> (r: Result<
    usize,
    EncodeError,
>)
    requires
        old(arena).wf(),
    ensures
        grew(*old(arena), *final(arena)),
        match r {
            Ok(h) => {
                &&& text_ok(value@)
                &&& text_handle_wf(h, *final(arena))
                &&& final(arena).text_at(h as int) == value@
                &&& final(arena).len() == old(arena).len() + 1
                &&& h == old(arena).len()
                &&& new_live_exactly(*old(arena), *final(arena), seq![h as int])
            },
            Err(e) => {
                &&& !text_ok(value@)
                &&& e == (EncodeError { field: descr })
                &&& *final(arena) == *old(arena)
            },
        },
{
    if contains_terminator(value) {
        Err(EncodeError { field: descr })
    } else {
        let h = arena.allocate(Allocation::Text(copy_vec(value)));
        proof {
            assert(seq![h as int][0] == h as int);
            assert(seq![h as int].contains(h as int));
        }
        Ok(h)
    }
}

impl Action {
    /// Flattens this action into its struct-of-optionals encoding, with
    /// exactly one field active, materializing an owned string for a text
    /// payload. Fails without allocating if the payload contains the
    /// terminator byte.
    pub fn to_awc(&self, arena: &mut Arena) -> (r: Result<AwcAction, EncodeError>)
        requires
            old(arena).wf(),
        ensures
            grew(*old(arena), *final(arena)),
            match r {
                Ok(f) => {
                    &&& self.first_error() is None
                    &&& action_wf(f, *final(arena))
                    &&& action_matches(f, *self, *final(arena))
                    &&& f.handles().no_duplicates()
                    &&& new_live_exactly(*old(arena), *final(arena), f.handles())
                },
                Err(e) => {
                    &&& self.first_error() == Some(e.field)
                    &&& *final(arena) == *old(arena)
                },
            },
    {
        let mut action = crate::flat::new_blank_action();
        match self {
            Action::Close => action.close = true,
            Action::ConfigReload => action.config_reload = true,
            Action::Execute(cmd) => {
                action.execute = Some(str_to_c_char(cmd, TextField::ExecuteCommand, arena)?);
            },
            Action::Expand => action.expand = true,
            Action::FocusDown => action.focus_down = true,
            Action::FocusUp => action.focus_up = true,
            Action::FocusOutput(output) => action.focus_output = *output,
            Action::FocusPrimary => action.focus_primary = true,
            Action::GreedyView(ws) => {
                action.greedy_view = Some(str_to_c_char(ws, TextField::GreedyViewTarget, arena)?);
            },
            Action::MoveTo(ws) => {
                action.move_to = Some(str_to_c_char(ws, TextField::MoveTarget, arena)?);
            },
            Action::MoveToOutput(output) => action.move_to_output = *output,
            Action::ResetLayouts => action.reset_layouts = true,
            Action::Shrink => action.shrink = true,
            Action::Sink => action.sink = true,
            Action::SwapDown => action.swap_down = true,
            Action::SwapUp => action.swap_up = true,
            Action::SwapPrimary => action.swap_primary = true,
            Action::SwitchVT(vt) => action.switch_vt = *vt,
            Action::NextLayout => action.next_layout = true,
            Action::SwapWorkspaces => action.swap_workspaces = true,
            Action::SwapWorkspaceTagWith(ws) => {
                action.swap_workspace_tag_with = Some(
                    str_to_c_char(ws, TextField::SwapWorkspaceTag, arena)?,
                );
            },
            Action::View(ws) => {
                action.view = Some(str_to_c_char(ws, TextField::ViewTarget, arena)?);
            },
        }
        Ok(action)
    }
}

/// A flattened button binding is well-formed: it owns a live modifier array
/// whose length its count field reports.
pub open spec fn button_wf(b: AwcButtonBinding, ar: Arena) -> bool {
    &&& ar.is_live(b.mods as int)
    &&& ar.alloc_at(b.mods as int) is Mods
    &&& b.number_of_mods == ar.mods_at(b.mods as int).len()
}

/// The flattened button binding `f` encodes the tree binding `b`.
pub open spec fn button_matches(f: AwcButtonBinding, b: ButtonBinding, ar: Arena) -> bool {
    &&& ar.mods_at(f.mods as int) == b.mods@
    &&& f.number_of_mods == b.mods@.len()
    &&& f.button == b.button
    &&& f.action == b.action
    &&& f.window == b.window
}

/// A flattened key binding is well-formed: a live modifier array with an
/// agreeing count, an optional live symbol string, a well-formed action.
pub open spec fn key_wf(k: AwcKeyBinding, ar: Arena) -> bool {
    &&& ar.is_live(k.mods as int)
    &&& ar.alloc_at(k.mods as int) is Mods
    &&& k.number_of_mods == ar.mods_at(k.mods as int).len()
    &&& opt_text_wf(k.sym, ar)
    &&& action_wf(k.action, ar)
}

/// The flattened key binding `f` encodes the tree binding `k`: a raw key
/// code with the null symbol sentinel, or code zero with an owned symbol.
pub open spec fn key_matches(f: AwcKeyBinding, k: KeyBinding, ar: Arena) -> bool {
    &&& ar.mods_at(f.mods as int) == k.mods@
    &&& f.number_of_mods == k.mods@.len()
    &&& match k.key {
        Key::Code(code) => f.code == code && f.sym is None,
        Key::Sym(sym) => f.code == 0 && f.sym is Some && ar.text_at(f.sym->0 as int) == sym@,
    }
    &&& action_matches(f.action, k.action, ar)
}

/// A flattened keyboard configuration is well-formed.
pub open spec fn keyboard_wf(k: AwcKeyboardConfig, ar: Arena) -> bool {
    text_handle_wf(k.layout, ar)
}

/// The flattened keyboard configuration `f` encodes the tree record `k`.
pub open spec fn keyboard_matches(f: AwcKeyboardConfig, k: KeyboardConfig, ar: Arena) -> bool {
    &&& ar.text_at(f.layout as int) == k.layout@
    &&& f.type_ == k.type_
}

/// A flattened output configuration is well-formed.
pub open spec fn output_wf(o: AwcOutputConfig, ar: Arena) -> bool {
    text_handle_wf(o.name, ar)
}

/// The flattened output configuration `f` encodes the tree record `o`.
pub open spec fn output_matches(f: AwcOutputConfig, o: OutputConfig, ar: Arena) -> bool {
    &&& ar.text_at(f.name as int) == o.name@
    &&& f.x == o.x
    &&& f.y == o.y
    &&& f.scale_bits == o.scale_bits
}

/// The handles owned by a sequence of flattened button bindings, in order.
pub open spec fn buttons_handles(s: Seq<AwcButtonBinding>) -> Seq<int>
    decreases s.len(),
{
    if s.len() == 0 {
        seq![]
    } else {
        buttons_handles(s.drop_last()) + s.last().handles()
    }
}

/// The handles owned by a sequence of flattened key bindings, in order.
pub open spec fn keys_handles(s: Seq<AwcKeyBinding>) -> Seq<int>
    decreases s.len(),
{
    if s.len() == 0 {
        seq![]
    } else {
        keys_handles(s.drop_last()) + s.last().handles()
    }
}

/// The handles owned by a sequence of flattened keyboard configurations.
pub open spec fn keyboards_handles(s: Seq<AwcKeyboardConfig>) -> Seq<int>
    decreases s.len(),
{
    if s.len() == 0 {
        seq![]
    } else {
        keyboards_handles(s.drop_last()) + s.last().handles()
    }
}

/// The handles owned by a sequence of flattened output configurations.
pub open spec fn outputs_handles(s: Seq<AwcOutputConfig>) -> Seq<int>
    decreases s.len(),
{
    if s.len() == 0 {
        seq![]
    } else {
        outputs_handles(s.drop_last()) + s.last().handles()
    }
}

/// A handle sequence as slot numbers: the entries of a string handle array,
/// or any collected handle list.
pub open spec fn handle_ints(s: Seq<usize>) -> Seq<int>
    decreases s.len(),
{
    if s.len() == 0 {
        seq![]
    } else {
        handle_ints(s.drop_last()) + seq![s.last() as int]
    }
}

pub proof fn lemma_buttons_handles_push(s: Seq<AwcButtonBinding>, x: AwcButtonBinding)
    ensures
        buttons_handles(s.push(x)) == buttons_handles(s) + x.handles(),
{
    assert(s.push(x).drop_last() =~= s);
}

pub proof fn lemma_keys_handles_push(s: Seq<AwcKeyBinding>, x: AwcKeyBinding)
    ensures
        keys_handles(s.push(x)) == keys_handles(s) + x.handles(),
{
    assert(s.push(x).drop_last() =~= s);
}

pub proof fn lemma_keyboards_handles_push(s: Seq<AwcKeyboardConfig>, x: AwcKeyboardConfig)
    ensures
        keyboards_handles(s.push(x)) == keyboards_handles(s) + x.handles(),
{
    assert(s.push(x).drop_last() =~= s);
}

pub proof fn lemma_outputs_handles_push(s: Seq<AwcOutputConfig>, x: AwcOutputConfig)
    ensures
        outputs_handles(s.push(x)) == outputs_handles(s) + x.handles(),
{
    assert(s.push(x).drop_last() =~= s);
}

pub proof fn lemma_handle_ints_push(s: Seq<usize>, x: usize)
    ensures
        handle_ints(s.push(x)) == handle_ints(s) + seq![x as int],
{
    assert(s.push(x).drop_last() =~= s);
}

/// Concatenating duplicate-free handle sequences with no common element
/// yields a duplicate-free sequence.
pub proof fn lemma_concat_no_dup(a: Seq<int>, b: Seq<int>)
    requires
        a.no_duplicates(),
        b.no_duplicates(),
        forall|i: int, j: int|
            0 <= i < a.len() && 0 <= j < b.len() ==> #[trigger] a[i] != #[trigger] b[j],
    ensures
        (a + b).no_duplicates(),
{
    let c = a + b;
    assert forall|i: int, j: int|
        0 <= i < c.len() && 0 <= j < c.len() && i != j implies c[i] != c[j] by {
        if i < a.len() && j < a.len() {
            assert(c[i] == a[i] && c[j] == a[j]);
        } else if i >= a.len() && j >= a.len() {
            assert(c[i] == b[i - a.len()] && c[j] == b[j - a.len()]);
        } else if i < a.len() {
            assert(c[i] == a[i] && c[j] == b[j - a.len()]);
        } else {
            assert(c[i] == b[i - a.len()] && c[j] == a[j]);
        }
    }
}

pub proof fn lemma_grew_trans(a0: Arena, a1: Arena, a2: Arena)
    requires
        grew(a0, a1),
        grew(a1, a2),
    ensures
        grew(a0, a2),
{
}

/// Two successive allocation phases compose: the handles gained are the
/// concatenation, still free of duplicates.
pub proof fn lemma_new_live_compose(a0: Arena, a1: Arena, a2: Arena, hs1: Seq<int>, hs2: Seq<int>)
    requires
        grew(a0, a1),
        grew(a1, a2),
        new_live_exactly(a0, a1, hs1),
        new_live_exactly(a1, a2, hs2),
        hs1.no_duplicates(),
        hs2.no_duplicates(),
    ensures
        grew(a0, a2),
        new_live_exactly(a0, a2, hs1 + hs2),
        (hs1 + hs2).no_duplicates(),
{
    lemma_grew_trans(a0, a1, a2);
    let c = hs1 + hs2;
    assert forall|j: int| 0 <= j < c.len() implies a0.len() <= #[trigger] c[j] < a2.len()
        && a2.is_live(c[j]) by {
        if j < hs1.len() {
            assert(c[j] == hs1[j]);
            assert(a1.is_live(hs1[j]));
        } else {
            assert(c[j] == hs2[j - hs1.len()]);
        }
    }
    assert forall|h: int| a0.len() <= h < a2.len() && a2.is_live(h) implies c.contains(h) by {
        if h < a1.len() {
            assert(a1.is_live(h));
            assert(hs1.contains(h));
            let k = choose|k: int| 0 <= k < hs1.len() && hs1[k] == h;
            assert(c[k] == h);
        } else {
            assert(hs2.contains(h));
            let k = choose|k: int| 0 <= k < hs2.len() && hs2[k] == h;
            assert(c[hs1.len() + k] == h);
        }
    }
    assert forall|i: int, j: int|
        0 <= i < hs1.len() && 0 <= j < hs2.len() implies #[trigger] hs1[i] != #[trigger] hs2[j] by {
        assert(hs1[i] < a1.len() <= hs2[j]);
    }
    lemma_concat_no_dup(hs1, hs2);
}

/// Releases every allocation made at or after slot `n0`, restoring the live
/// set of the base arena: the all-or-nothing rollback of a failed export.
fn rollback(arena: &mut Arena, n0: usize, Ghost(base): Ghost<Arena>)
    requires
        old(arena).wf(),
        base.wf(),
        grew(base, *old(arena)),
        n0 == base.len(),
    ensures
        final(arena).wf(),
        final(arena).len() == old(arena).len(),
        forall|i: int|
            0 <= i < final(arena).len() ==> final(arena).alloc_at(i) == old(arena).alloc_at(i),
        forall|i: int| final(arena).is_live(i) <==> base.is_live(i),
{
    let end = arena.slot_count();
    let mut h = n0;
    while h < end
        invariant
            arena.wf(),
            arena.len() == end,
            n0 <= h <= end,
            n0 == base.len(),
            base.wf(),
            grew(base, *old(arena)),
            old(arena).len() == end,
            forall|i: int| 0 <= i < end ==> arena.alloc_at(i) == old(arena).alloc_at(i),
            forall|i: int| 0 <= i < n0 ==> (arena.is_live(i) <==> base.is_live(i)),
            forall|i: int| n0 <= i < h ==> !arena.is_live(i),
            forall|i: int| h <= i < end ==> (arena.is_live(i) <==> old(arena).is_live(i)),
        decreases end - h,
    {
        if arena.is_slot_live(h) {
            arena.free(h);
        }
        h += 1;
    }
    proof {
        assert forall|i: int| final(arena).is_live(i) <==> base.is_live(i) by {
            if i < 0 {
            } else if i < n0 {
            } else {
                assert(!final(arena).is_live(i));
                assert(!base.is_live(i));
            }
        }
    }
}

/// Every handle reachable from an exported root, in allocation order: per
/// collection the element-owned handles then the array itself, then the two
/// root-owned strings.
pub open spec fn config_handles(c: AwcConfig, ar: Arena) -> Seq<int> {
    buttons_handles(ar.buttons_at(c.button_bindings as int)) + seq![c.button_bindings as int]
        + keys_handles(ar.keys_at(c.key_bindings as int)) + seq![c.key_bindings as int]
        + keyboards_handles(ar.keyboards_at(c.keyboards as int)) + seq![c.keyboards as int]
        + seq![c.layout as int] + outputs_handles(ar.outputs_at(c.outputs as int))
        + seq![c.outputs as int] + handle_ints(ar.text_array_at(c.workspaces as int))
        + seq![c.workspaces as int] + seq![c.display_error_cmd as int] + seq![c.font as int]
}

/// An exported root is well-formed in `ar`: every collection handle is a
/// live array of the right kind whose length its count field reports, every
/// element is well-formed, the root strings are live and terminator-free,
/// and no handle is reachable twice.
pub open spec fn config_wf(c: AwcConfig, ar: Arena) -> bool {
    &&& ar.wf()
    &&& ar.is_live(c.button_bindings as int)
    &&& ar.alloc_at(c.button_bindings as int) is ButtonBindings
    &&& c.number_of_button_bindings == ar.buttons_at(c.button_bindings as int).len()
    &&& forall|i: int|
        0 <= i < ar.buttons_at(c.button_bindings as int).len() ==> button_wf(
            #[trigger] ar.buttons_at(c.button_bindings as int)[i],
            ar,
        )
    &&& ar.is_live(c.key_bindings as int)
    &&& ar.alloc_at(c.key_bindings as int) is KeyBindings
    &&& c.number_of_key_bindings == ar.keys_at(c.key_bindings as int).len()
    &&& forall|i: int|
        0 <= i < ar.keys_at(c.key_bindings as int).len() ==> key_wf(
            #[trigger] ar.keys_at(c.key_bindings as int)[i],
            ar,
        )
    &&& ar.is_live(c.keyboards as int)
    &&& ar.alloc_at(c.keyboards as int) is Keyboards
    &&& c.number_of_keyboards == ar.keyboards_at(c.keyboards as int).len()
    &&& forall|i: int|
        0 <= i < ar.keyboards_at(c.keyboards as int).len() ==> keyboard_wf(
            #[trigger] ar.keyboards_at(c.keyboards as int)[i],
            ar,
        )
    &&& ar.is_live(c.layout as int)
    &&& ar.alloc_at(c.layout as int) is LayoutOps
    &&& c.number_of_layout_ops == ar.layout_ops_at(c.layout as int).len()
    &&& ar.is_live(c.outputs as int)
    &&& ar.alloc_at(c.outputs as int) is Outputs
    &&& c.number_of_outputs == ar.outputs_at(c.outputs as int).len()
    &&& forall|i: int|
        0 <= i < ar.outputs_at(c.outputs as int).len() ==> output_wf(
            #[trigger] ar.outputs_at(c.outputs as int)[i],
            ar,
        )
    &&& ar.is_live(c.workspaces as int)
    &&& ar.alloc_at(c.workspaces as int) is TextArray
    &&& c.number_of_workspaces == ar.text_array_at(c.workspaces as int).len()
    &&& forall|i: int|
        0 <= i < ar.text_array_at(c.workspaces as int).len() ==> text_handle_wf(
            #[trigger] ar.text_array_at(c.workspaces as int)[i],
            ar,
        )
    &&& text_handle_wf(c.display_error_cmd, ar)
    &&& text_handle_wf(c.font, ar)
    &&& config_handles(c, ar).no_duplicates()
}

/// The exported root `c` encodes the tree `cfg`: scalars are copied, every
/// collection keeps its length and declaration order, every element and
/// every text is encoded as its tree counterpart.
pub open spec fn config_matches(c: AwcConfig, cfg: Config, ar: Arena) -> bool {
    &&& c.active_border_color == cfg.active_border_color
    &&& c.inactive_border_color == cfg.inactive_border_color
    &&& c.border_width == cfg.border_width
    &&& c.modifier == cfg.modifier
    &&& c.output_hud == cfg.output_hud
    &&& ar.text_at(c.display_error_cmd as int) == cfg.display_error_cmd@
    &&& ar.text_at(c.font as int) == cfg.font@
    &&& ar.buttons_at(c.button_bindings as int).len() == cfg.button_bindings@.len()
    &&& forall|i: int|
        0 <= i < cfg.button_bindings@.len() ==> button_matches(
            #[trigger] ar.buttons_at(c.button_bindings as int)[i],
            cfg.button_bindings@[i],
            ar,
        )
    &&& ar.keys_at(c.key_bindings as int).len() == cfg.key_bindings@.len()
    &&& forall|i: int|
        0 <= i < cfg.key_bindings@.len() ==> key_matches(
            #[trigger] ar.keys_at(c.key_bindings as int)[i],
            cfg.key_bindings@[i],
            ar,
        )
    &&& ar.keyboards_at(c.keyboards as int).len() == cfg.keyboards@.len()
    &&& forall|i: int|
        0 <= i < cfg.keyboards@.len() ==> keyboard_matches(
            #[trigger] ar.keyboards_at(c.keyboards as int)[i],
            cfg.keyboards@[i],
            ar,
        )
    &&& ar.layout_ops_at(c.layout as int) == cfg.layout@
    &&& ar.outputs_at(c.outputs as int).len() == cfg.outputs@.len()
    &&& forall|i: int|
        0 <= i < cfg.outputs@.len() ==> output_matches(
            #[trigger] ar.outputs_at(c.outputs as int)[i],
            cfg.outputs@[i],
            ar,
        )
    &&& ar.text_array_at(c.workspaces as int).len() == cfg.workspaces@.len()
    &&& forall|i: int|
        0 <= i < cfg.workspaces@.len() ==> ar.text_at(
            #[trigger] ar.text_array_at(c.workspaces as int)[i] as int,
        ) == cfg.workspaces@[i]@
}

impl ButtonBinding {
    /// Flattens this button binding, moving a copy of its modifier list into
    /// an owned array. Button bindings carry no text and cannot fail.
    pub fn to_awc(&self, arena: &mut Arena) -> (r: AwcButtonBinding)
        requires
            old(arena).wf(),
        ensures
            grew(*old(arena), *final(arena)),
            button_wf(r, *final(arena)),
            button_matches(r, *self, *final(arena)),
            r.handles().no_duplicates(),
            new_live_exactly(*old(arena), *final(arena), r.handles()),
    {
        let (mods, number_of_mods) = crate::arena::vec_into_raw(
            arena,
            Allocation::Mods(copy_vec(&self.mods)),
        );
        let r = AwcButtonBinding {
            mods,
            number_of_mods,
            button: self.button,
            action: self.action,
            window: self.window,
        };
        proof {
            assert(r.handles()[0] == mods as int);
            assert(r.handles().contains(mods as int));
        }
        r
    }
}

impl KeyBinding {
    /// Flattens this key binding: the modifier array, then the key (a raw
    /// code, or an owned symbol string), then the action. Fails on the first
    /// text payload containing the terminator byte; allocations made before
    /// the failure stay behind for the caller's rollback.
    pub fn to_awc(&self, arena: &mut Arena) -> (r: Result<AwcKeyBinding, EncodeError>)
        requires
            old(arena).wf(),
        ensures
            grew(*old(arena), *final(arena)),
            match r {
                Ok(f) => {
                    &&& self.first_error() is None
                    &&& key_wf(f, *final(arena))
                    &&& key_matches(f, *self, *final(arena))
                    &&& f.handles().no_duplicates()
                    &&& new_live_exactly(*old(arena), *final(arena), f.handles())
                },
                Err(e) => self.first_error() == Some(e.field),
            },
    {
        let ghost a0 = *arena;
        let (mods, number_of_mods) = crate::arena::vec_into_raw(
            arena,
            Allocation::Mods(copy_vec(&self.mods)),
        );
        let ghost a1 = *arena;
        let (code, sym) = match &self.key {
            Key::Code(code) => (*code, None),
            Key::Sym(sym) => (0, Some(str_to_c_char(sym, TextField::KeySymbol, arena)?)),
        };
        let ghost a2 = *arena;
        let action = self.action.to_awc(arena)?;
        let f = AwcKeyBinding { action, mods, number_of_mods, code, sym };
        proof {
            let hs = f.handles();
            assert(hs[0] == mods as int);
            assert(seq![mods as int].no_duplicates());
            assert(forall|j: int|
                0 <= j < opt_handle(sym).len() ==> a1.len() <= #[trigger] opt_handle(sym)[j]
                    < a2.len() && a2.is_live(opt_handle(sym)[j]));
            lemma_concat_no_dup(seq![mods as int], opt_handle(sym));
            lemma_concat_no_dup(seq![mods as int] + opt_handle(sym), action.handles());
            assert forall|h: int|
                a0.len() <= h < final(arena).len() && final(arena).is_live(h) implies hs.contains(
                h,
            ) by {
                if h < a1.len() {
                    assert(h == mods as int);
                    assert(hs[0] == h);
                } else if h < a2.len() {
                    assert(opt_handle(sym).contains(h));
                    let k = choose|k: int| 0 <= k < opt_handle(sym).len() && opt_handle(sym)[k] == h;
                    assert(hs[1 + k] == h);
                } else {
                    assert(action.handles().contains(h));
                    let k = choose|k: int|
                        0 <= k < action.handles().len() && action.handles()[k] == h;
                    assert(hs[1 + opt_handle(sym).len() + k] == h);
                }
            }
        }
        Ok(f)
    }
}

impl KeyboardConfig {
    /// Flattens this keyboard configuration, materializing its layout as an
    /// owned string. Fails without allocating if the layout contains the
    /// terminator byte.
    pub fn to_awc(&self, arena: &mut Arena) -> (r: Result<AwcKeyboardConfig, EncodeError>)
        requires
            old(arena).wf(),
        ensures
            grew(*old(arena), *final(arena)),
            match r {
                Ok(f) => {
                    &&& self.first_error() is None
                    &&& keyboard_wf(f, *final(arena))
                    &&& keyboard_matches(f, *self, *final(arena))
                    &&& f.handles().no_duplicates()
                    &&& new_live_exactly(*old(arena), *final(arena), f.handles())
                },
                Err(e) => {
                    &&& self.first_error() == Some(e.field)
                    &&& *final(arena) == *old(arena)
                },
            },
    {
        let layout = str_to_c_char(&self.layout, TextField::KeyboardLayout, arena)?;
        let f = AwcKeyboardConfig { layout, type_: self.type_ };
        proof {
            assert(f.handles()[0] == layout as int);
            assert(f.handles().contains(layout as int));
        }
        Ok(f)
    }
}

impl OutputConfig {
    /// Flattens this output configuration, materializing its name as an
    /// owned string. Fails without allocating if the name contains the
    /// terminator byte.
    pub fn to_awc(&self, arena: &mut Arena) -> (r: Result<AwcOutputConfig, EncodeError>)
        requires
            old(arena).wf(),
        ensures
            grew(*old(arena), *final(arena)),
            match r {
                Ok(f) => {
                    &&& self.first_error() is None
                    &&& output_wf(f, *final(arena))
                    &&& output_matches(f, *self, *final(arena))
                    &&& f.handles().no_duplicates()
                    &&& new_live_exactly(*old(arena), *final(arena), f.handles())
                },
                Err(e) => {
                    &&& self.first_error() == Some(e.field)
                    &&& *final(arena) == *old(arena)
                },
            },
    {
        let name = str_to_c_char(&self.name, TextField::OutputName, arena)?;
        let f = AwcOutputConfig { name, x: self.x, y: self.y, scale_bits: self.scale_bits };
        proof {
            assert(f.handles()[0] == name as int);
            assert(f.handles().contains(name as int));
        }
        Ok(f)
    }
}

/// A single fresh allocation is the delta between two arena states.
pub proof fn lemma_single_alloc_delta(a0: Arena, a1: Arena, h: int)
    requires
        a1.wf(),
        a1.len() == a0.len() + 1,
        h == a0.len(),
        a1.is_live(h),
        forall|i: int| 0 <= i < a0.len() ==> a1.alloc_at(i) == a0.alloc_at(i),
        forall|i: int| 0 <= i < a0.len() ==> (a1.is_live(i) <==> a0.is_live(i)),
    ensures
        grew(a0, a1),
        new_live_exactly(a0, a1, seq![h]),
        seq![h].no_duplicates(),
{
    assert(seq![h][0] == h);
    assert forall|x: int| a0.len() <= x < a1.len() && a1.is_live(x) implies seq![h].contains(
        x,
    ) by {
        assert(x == h);
        assert(seq![h][0] == x);
    }
}

/// Well-formedness and correspondence of a flattened button binding survive
/// further allocation.
pub proof fn lemma_port_button(b: AwcButtonBinding, t: ButtonBinding, a1: Arena, a2: Arena)
    requires
        a1.wf(),
        grew(a1, a2),
        button_wf(b, a1),
        button_matches(b, t, a1),
    ensures
        button_wf(b, a2),
        button_matches(b, t, a2),
{
    assert(0 <= b.mods < a1.len());
    assert(a2.alloc_at(b.mods as int) == a1.alloc_at(b.mods as int));
    assert(a2.is_live(b.mods as int));
}

/// Well-formedness and correspondence of a flattened action survive further
/// allocation.
pub proof fn lemma_port_action(f: AwcAction, a: Action, a1: Arena, a2: Arena)
    requires
        a1.wf(),
        grew(a1, a2),
        action_wf(f, a1),
        action_matches(f, a, a1),
    ensures
        action_wf(f, a2),
        action_matches(f, a, a2),
{
    if let Some(h) = f.execute {
        assert(0 <= h < a1.len());
        assert(a2.alloc_at(h as int) == a1.alloc_at(h as int));
        assert(a2.is_live(h as int));
    }
    if let Some(h) = f.greedy_view {
        assert(0 <= h < a1.len());
        assert(a2.alloc_at(h as int) == a1.alloc_at(h as int));
        assert(a2.is_live(h as int));
    }
    if let Some(h) = f.swap_workspace_tag_with {
        assert(0 <= h < a1.len());
        assert(a2.alloc_at(h as int) == a1.alloc_at(h as int));
        assert(a2.is_live(h as int));
    }
    if let Some(h) = f.move_to {
        assert(0 <= h < a1.len());
        assert(a2.alloc_at(h as int) == a1.alloc_at(h as int));
        assert(a2.is_live(h as int));
    }
    if let Some(h) = f.view {
        assert(0 <= h < a1.len());
        assert(a2.alloc_at(h as int) == a1.alloc_at(h as int));
        assert(a2.is_live(h as int));
    }
}

/// Well-formedness and correspondence of a flattened key binding survive
/// further allocation.
pub proof fn lemma_port_key(k: AwcKeyBinding, t: KeyBinding, a1: Arena, a2: Arena)
    requires
        a1.wf(),
        grew(a1, a2),
        key_wf(k, a1),
        key_matches(k, t, a1),
    ensures
        key_wf(k, a2),
        key_matches(k, t, a2),
{
    lemma_port_action(k.action, t.action, a1, a2);
    assert(0 <= k.mods < a1.len());
    assert(a2.alloc_at(k.mods as int) == a1.alloc_at(k.mods as int));
    assert(a2.is_live(k.mods as int));
    if let Some(h) = k.sym {
        assert(0 <= h < a1.len());
        assert(a2.alloc_at(h as int) == a1.alloc_at(h as int));
        assert(a2.is_live(h as int));
    }
}

/// Converts a list of button bindings into one owned array of flattened
/// bindings, each owning its modifier array.
fn export_button_bindings(list: &Vec<ButtonBinding>, arena: &mut Arena) -> (r: (usize, usize))
    requires
        old(arena).wf(),
    ensures
        grew(*old(arena), *final(arena)),
        final(arena).is_live(r.0 as int),
        final(arena).alloc_at(r.0 as int) is ButtonBindings,
        final(arena).buttons_at(r.0 as int).len() == list@.len(),
        r.1 == list@.len(),
        forall|j: int|
            0 <= j < list@.len() ==> button_wf(
                #[trigger] final(arena).buttons_at(r.0 as int)[j],
                *final(arena),
            ) && button_matches(
                final(arena).buttons_at(r.0 as int)[j],
                list@[j],
                *final(arena),
            ),
        (buttons_handles(final(arena).buttons_at(r.0 as int)) + seq![r.0 as int]).no_duplicates(),
        new_live_exactly(
            *old(arena),
            *final(arena),
            buttons_handles(final(arena).buttons_at(r.0 as int)) + seq![r.0 as int],
        ),
{
    let mut converted: Vec<AwcButtonBinding> = Vec::new();
    let mut i: usize = 0;
    while i < list.len()
        invariant
            old(arena).wf(),
            grew(*old(arena), *arena),
            i <= list@.len(),
            converted@.len() == i,
            forall|j: int|
                0 <= j < i ==> button_wf(#[trigger] converted@[j], *arena) && button_matches(
                    converted@[j],
                    list@[j],
                    *arena,
                ),
            buttons_handles(converted@).no_duplicates(),
            new_live_exactly(*old(arena), *arena, buttons_handles(converted@)),
        decreases list@.len() - i,
    {
        let ghost prev = *arena;
        let ghost cum = buttons_handles(converted@);
        let fb = list[i].to_awc(arena);
        proof {
            lemma_new_live_compose(*old(arena), prev, *arena, cum, fb.handles());
            lemma_buttons_handles_push(converted@, fb);
            assert forall|j: int| 0 <= j < converted@.len() implies button_wf(
                #[trigger] converted@[j],
                *arena,
            ) && button_matches(converted@[j], list@[j], *arena) by {
                lemma_port_button(converted@[j], list@[j], prev, *arena);
            }
        }
        converted.push(fb);
        i += 1;
    }
    let ghost cs = converted@;
    let ghost pre = *arena;
    let (h, n) = crate::arena::vec_into_raw(arena, Allocation::ButtonBindings(converted));
    proof {
        lemma_single_alloc_delta(pre, *arena, h as int);
        lemma_new_live_compose(*old(arena), pre, *arena, buttons_handles(cs), seq![h as int]);
        assert(arena.buttons_at(h as int) == cs);
        assert forall|j: int| 0 <= j < cs.len() implies button_wf(#[trigger] cs[j], *arena)
            && button_matches(cs[j], list@[j], *arena) by {
            lemma_port_button(cs[j], list@[j], pre, *arena);
        }
    }
    (h, n)
}

/// Converts a list of key bindings into one owned array of flattened
/// bindings, or fails on the first text payload containing the terminator
/// byte, leaving its partial allocations for the caller's rollback.
fn export_key_bindings(list: &Vec<KeyBinding>, arena: &mut Arena) -> (r: Result<
    (usize, usize),
    EncodeError,
>)
    requires
        old(arena).wf(),
    ensures
        grew(*old(arena), *final(arena)),
        match r {
            Ok((h, n)) => {
                &&& crate::tree::first_key_error(list@) is None
                &&& final(arena).is_live(h as int)
                &&& final(arena).alloc_at(h as int) is KeyBindings
                &&& final(arena).keys_at(h as int).len() == list@.len()
                &&& n == list@.len()
                &&& forall|j: int|
                    0 <= j < list@.len() ==> key_wf(
                        #[trigger] final(arena).keys_at(h as int)[j],
                        *final(arena),
                    ) && key_matches(final(arena).keys_at(h as int)[j], list@[j], *final(arena))
                &&& (keys_handles(final(arena).keys_at(h as int))
                    + seq![h as int]).no_duplicates()
                &&& new_live_exactly(
                    *old(arena),
                    *final(arena),
                    keys_handles(final(arena).keys_at(h as int)) + seq![h as int],
                )
            },
            Err(e) => crate::tree::first_key_error(list@) == Some(e.field),
        },
{
    let mut converted: Vec<AwcKeyBinding> = Vec::new();
    let mut i: usize = 0;
    while i < list.len()
        invariant
            old(arena).wf(),
            grew(*old(arena), *arena),
            i <= list@.len(),
            converted@.len() == i,
            forall|j: int|
                0 <= j < i ==> key_wf(#[trigger] converted@[j], *arena) && key_matches(
                    converted@[j],
                    list@[j],
                    *arena,
                ),
            forall|j: int| 0 <= j < i ==> (#[trigger] list@[j].first_error()) is None,
            keys_handles(converted@).no_duplicates(),
            new_live_exactly(*old(arena), *arena, keys_handles(converted@)),
        decreases list@.len() - i,
    {
        let ghost prev = *arena;
        let ghost cum = keys_handles(converted@);
        let fk = match list[i].to_awc(arena) {
            Ok(f) => f,
            Err(e) => {
                proof {
                    lemma_grew_trans(*old(arena), prev, *arena);
                    crate::tree::lemma_first_key_error_at(list@, i as int);
                }
                return Err(e);
            },
        };
        proof {
            lemma_new_live_compose(*old(arena), prev, *arena, cum, fk.handles());
            lemma_keys_handles_push(converted@, fk);
            assert forall|j: int| 0 <= j < converted@.len() implies key_wf(
                #[trigger] converted@[j],
                *arena,
            ) && key_matches(converted@[j], list@[j], *arena) by {
                lemma_port_key(converted@[j], list@[j], prev, *arena);
            }
        }
        converted.push(fk);
        i += 1;
    }
    let ghost cs = converted@;
    let ghost pre = *arena;
    let (h, n) = crate::arena::vec_into_raw(arena, Allocation::KeyBindings(converted));
    proof {
        crate::tree::lemma_first_key_error_none(list@);
        lemma_single_alloc_delta(pre, *arena, h as int);
        lemma_new_live_compose(*old(arena), pre, *arena, keys_handles(cs), seq![h as int]);
        assert(arena.keys_at(h as int) == cs);
        assert forall|j: int| 0 <= j < cs.len() implies key_wf(#[trigger] cs[j], *arena)
            && key_matches(cs[j], list@[j], *arena) by {
            lemma_port_key(cs[j], list@[j], pre, *arena);
        }
    }
    Ok((h, n))
}

/// Converts a list of keyboard configurations into one owned array, or fails
/// on the first layout containing the terminator byte.
fn export_keyboards(list: &Vec<KeyboardConfig>, arena: &mut Arena) -> (r: Result<
    (usize, usize),
    EncodeError,
>)
    requires
        old(arena).wf(),
    ensures
        grew(*old(arena), *final(arena)),
        match r {
            Ok((h, n)) => {
                &&& crate::tree::first_keyboard_error(list@) is None
                &&& final(arena).is_live(h as int)
                &&& final(arena).alloc_at(h as int) is Keyboards
                &&& final(arena).keyboards_at(h as int).len() == list@.len()
                &&& n == list@.len()
                &&& forall|j: int|
                    0 <= j < list@.len() ==> keyboard_wf(
                        #[trigger] final(arena).keyboards_at(h as int)[j],
                        *final(arena),
                    ) && keyboard_matches(
                        final(arena).keyboards_at(h as int)[j],
                        list@[j],
                        *final(arena),
                    )
                &&& (keyboards_handles(final(arena).keyboards_at(h as int))
                    + seq![h as int]).no_duplicates()
                &&& new_live_exactly(
                    *old(arena),
                    *final(arena),
                    keyboards_handles(final(arena).keyboards_at(h as int)) + seq![h as int],
                )
            },
            Err(e) => crate::tree::first_keyboard_error(list@) == Some(e.field),
        },
{
    let mut converted: Vec<AwcKeyboardConfig> = Vec::new();
    let mut i: usize = 0;
    while i < list.len()
        invariant
            old(arena).wf(),
            grew(*old(arena), *arena),
            i <= list@.len(),
            converted@.len() == i,
            forall|j: int|
                0 <= j < i ==> keyboard_wf(#[trigger] converted@[j], *arena) && keyboard_matches(
                    converted@[j],
                    list@[j],
                    *arena,
                ),
            forall|j: int| 0 <= j < i ==> (#[trigger] list@[j].first_error()) is None,
            keyboards_handles(converted@).no_duplicates(),
            new_live_exactly(*old(arena), *arena, keyboards_handles(converted@)),
        decreases list@.len() - i,
    {
        let ghost prev = *arena;
        let ghost cum = keyboards_handles(converted@);
        let fk = match list[i].to_awc(arena) {
            Ok(f) => f,
            Err(e) => {
                proof {
                    lemma_grew_trans(*old(arena), prev, *arena);
                    crate::tree::lemma_first_keyboard_error_at(list@, i as int);
                }
                return Err(e);
            },
        };
        proof {
            lemma_new_live_compose(*old(arena), prev, *arena, cum, fk.handles());
            lemma_keyboards_handles_push(converted@, fk);
        }
        converted.push(fk);
        i += 1;
    }
    let ghost cs = converted@;
    let ghost pre = *arena;
    let (h, n) = crate::arena::vec_into_raw(arena, Allocation::Keyboards(converted));
    proof {
        crate::tree::lemma_first_keyboard_error_none(list@);
        lemma_single_alloc_delta(pre, *arena, h as int);
        lemma_new_live_compose(*old(arena), pre, *arena, keyboards_handles(cs), seq![h as int]);
        assert(arena.keyboards_at(h as int) == cs);
    }
    Ok((h, n))
}

/// Converts a list of output configurations into one owned array, or fails
/// on the first name containing the terminator byte.
fn export_outputs(list: &Vec<OutputConfig>, arena: &mut Arena) -> (r: Result<
    (usize, usize),
    EncodeError,
>)
    requires
        old(arena).wf(),
    ensures
        grew(*old(arena), *final(arena)),
        match r {
            Ok((h, n)) => {
                &&& crate::tree::first_output_error(list@) is None
                &&& final(arena).is_live(h as int)
                &&& final(arena).alloc_at(h as int) is Outputs
                &&& final(arena).outputs_at(h as int).len() == list@.len()
                &&& n == list@.len()
                &&& forall|j: int|
                    0 <= j < list@.len() ==> output_wf(
                        #[trigger] final(arena).outputs_at(h as int)[j],
                        *final(arena),
                    ) && output_matches(
                        final(arena).outputs_at(h as int)[j],
                        list@[j],
                        *final(arena),
                    )
                &&& (outputs_handles(final(arena).outputs_at(h as int))
                    + seq![h as int]).no_duplicates()
                &&& new_live_exactly(
                    *old(arena),
                    *final(arena),
                    outputs_handles(final(arena).outputs_at(h as int)) + seq![h as int],
                )
            },
            Err(e) => crate::tree::first_output_error(list@) == Some(e.field),
        },
{
    let mut converted: Vec<AwcOutputConfig> = Vec::new();
    let mut i: usize = 0;
    while i < list.len()
        invariant
            old(arena).wf(),
            grew(*old(arena), *arena),
            i <= list@.len(),
            converted@.len() == i,
            forall|j: int|
                0 <= j < i ==> output_wf(#[trigger] converted@[j], *arena) && output_matches(
                    converted@[j],
                    list@[j],
                    *arena,
                ),
            forall|j: int| 0 <= j < i ==> (#[trigger] list@[j].first_error()) is None,
            outputs_handles(converted@).no_duplicates(),
            new_live_exactly(*old(arena), *arena, outputs_handles(converted@)),
        decreases list@.len() - i,
    {
        let ghost prev = *arena;
        let ghost cum = outputs_handles(converted@);
        let fo = match list[i].to_awc(arena) {
            Ok(f) => f,
            Err(e) => {
                proof {
                    lemma_grew_trans(*old(arena), prev, *arena);
                    crate::tree::lemma_first_output_error_at(list@, i as int);
                }
                return Err(e);
            },
        };
        proof {
            lemma_new_live_compose(*old(arena), prev, *arena, cum, fo.handles());
            lemma_outputs_handles_push(converted@, fo);
        }
        converted.push(fo);
        i += 1;
    }
    let ghost cs = converted@;
    let ghost pre = *arena;
    let (h, n) = crate::arena::vec_into_raw(arena, Allocation::Outputs(converted));
    proof {
        crate::tree::lemma_first_output_error_none(list@);
        lemma_single_alloc_delta(pre, *arena, h as int);
        lemma_new_live_compose(*old(arena), pre, *arena, outputs_handles(cs), seq![h as int]);
        assert(arena.outputs_at(h as int) == cs);
    }
    Ok((h, n))
}

/// Converts the workspace tag list into one owned array of owned strings,
/// or fails on the first tag containing the terminator byte.
fn export_workspaces(list: &Vec<Vec<u8>>, arena: &mut Arena) -> (r: Result<
    (usize, usize),
    EncodeError,
>)
    requires
        old(arena).wf(),
    ensures
        grew(*old(arena), *final(arena)),
        match r {
            Ok((h, n)) => {
                &&& crate::tree::first_workspace_error(list@) is None
                &&& final(arena).is_live(h as int)
                &&& final(arena).alloc_at(h as int) is TextArray
                &&& final(arena).text_array_at(h as int).len() == list@.len()
                &&& n == list@.len()
                &&& forall|j: int|
                    0 <= j < list@.len() ==> text_handle_wf(
                        #[trigger] final(arena).text_array_at(h as int)[j],
                        *final(arena),
                    ) && final(arena).text_at(final(arena).text_array_at(h as int)[j] as int)
                        == list@[j]@
                &&& (handle_ints(final(arena).text_array_at(h as int))
                    + seq![h as int]).no_duplicates()
                &&& new_live_exactly(
                    *old(arena),
                    *final(arena),
                    handle_ints(final(arena).text_array_at(h as int)) + seq![h as int],
                )
            },
            Err(e) => crate::tree::first_workspace_error(list@) == Some(e.field),
        },
{
    let mut converted: Vec<usize> = Vec::new();
    let mut i: usize = 0;
    while i < list.len()
        invariant
            old(arena).wf(),
            grew(*old(arena), *arena),
            i <= list@.len(),
            converted@.len() == i,
            forall|j: int|
                0 <= j < i ==> text_handle_wf(#[trigger] converted@[j], *arena) && arena.text_at(
                    converted@[j] as int,
                ) == list@[j]@,
            forall|j: int| 0 <= j < i ==> text_ok(#[trigger] list@[j]@),
            handle_ints(converted@).no_duplicates(),
            new_live_exactly(*old(arena), *arena, handle_ints(converted@)),
        decreases list@.len() - i,
    {
        let ghost prev = *arena;
        let ghost cum = handle_ints(converted@);
        let hw = match str_to_c_char(&list[i], TextField::Workspace, arena) {
            Ok(h) => h,
            Err(e) => {
                proof {
                    lemma_grew_trans(*old(arena), prev, *arena);
                    crate::tree::lemma_first_workspace_error_at(list@, i as int);
                }
                return Err(e);
            },
        };
        proof {
            lemma_new_live_compose(*old(arena), prev, *arena, cum, seq![hw as int]);
            lemma_handle_ints_push(converted@, hw);
        }
        converted.push(hw);
        i += 1;
    }
    let ghost cs = converted@;
    let ghost pre = *arena;
    let (h, n) = crate::arena::vec_into_raw(arena, Allocation::TextArray(converted));
    proof {
        crate::tree::lemma_first_workspace_error_none(list@);
        lemma_single_alloc_delta(pre, *arena, h as int);
        lemma_new_live_compose(*old(arena), pre, *arena, handle_ints(cs), seq![h as int]);
        assert(arena.text_array_at(h as int) == cs);
    }
    Ok((h, n))
}

/// Moves the layout operation sequence into one owned array. Layout
/// operations are plain values; the sequence order is kept, as it is
/// consumed left to right by the host.
fn export_layout(list: &Vec<crate::tree::AwcLayoutOp>, arena: &mut Arena) -> (r: (usize, usize))
    requires
        old(arena).wf(),
    ensures
        grew(*old(arena), *final(arena)),
        final(arena).is_live(r.0 as int),
        final(arena).alloc_at(r.0 as int) is LayoutOps,
        final(arena).layout_ops_at(r.0 as int) == list@,
        r.1 == list@.len(),
        new_live_exactly(*old(arena), *final(arena), seq![r.0 as int]),
        seq![r.0 as int].no_duplicates(),
{
    let ghost pre = *arena;
    let (h, n) = crate::arena::vec_into_raw(arena, Allocation::LayoutOps(copy_vec(list)));
    proof {
        lemma_single_alloc_delta(pre, *arena, h as int);
    }
    (h, n)
}

impl Config {
    /// Exports this tree as a flat root backed by `arena`: every collection
    /// becomes an owned array in declaration order, every sum type is
    /// flattened, every text becomes an owned string. All-or-nothing: on
    /// success the arena gains exactly the allocations reachable from the
    /// returned root; on the first text payload containing the terminator
    /// byte, the error names that field and every allocation made for this
    /// export has been released, leaving the arena's live set untouched.
    /// The tree itself is never mutated or retained.
    pub fn export(&self, arena: &mut Arena) -> (r: Result<AwcConfig, EncodeError>)
        requires
            old(arena).wf(),
        ensures
            grew(*old(arena), *final(arena)),
            match r {
                Ok(c) => {
                    &&& self.first_error() is None
                    &&& config_wf(c, *final(arena))
                    &&& config_matches(c, *self, *final(arena))
                    &&& new_live_exactly(
                        *old(arena),
                        *final(arena),
                        config_handles(c, *final(arena)),
                    )
                },
                Err(e) => {
                    &&& self.first_error() == Some(e.field)
                    &&& forall|i: int| final(arena).is_live(i) <==> old(arena).is_live(i)
                },
            },
    {
        let ghost ar0 = *arena;
        let n0 = arena.slot_count();

        let (button_bindings, number_of_button_bindings) = export_button_bindings(
            &self.button_bindings,
            arena,
        );
        let ghost a1 = *arena;
        let ghost cs1 = a1.buttons_at(button_bindings as int);
        let ghost t1 = buttons_handles(cs1) + seq![button_bindings as int];

        let (key_bindings, number_of_key_bindings) = match export_key_bindings(
            &self.key_bindings,
            arena,
        ) {
            Ok(v) => v,
            Err(e) => {
                proof {
                    lemma_grew_trans(ar0, a1, *arena);
                }
                rollback(arena, n0, Ghost(ar0));
                return Err(e);
            },
        };
        let ghost a2 = *arena;
        let ghost cs2 = a2.keys_at(key_bindings as int);
        let ghost t2 = t1 + keys_handles(cs2) + seq![key_bindings as int];
        proof {
            lemma_new_live_compose(ar0, a1, a2, t1, keys_handles(cs2) + seq![key_bindings as int]);
            assert(t1 + (keys_handles(cs2) + seq![key_bindings as int]) =~= t2);
        }

        let (keyboards, number_of_keyboards) = match export_keyboards(&self.keyboards, arena) {
            Ok(v) => v,
            Err(e) => {
                proof {
                    lemma_grew_trans(ar0, a2, *arena);
                }
                rollback(arena, n0, Ghost(ar0));
                return Err(e);
            },
        };
        let ghost a3 = *arena;
        let ghost cs3 = a3.keyboards_at(keyboards as int);
        let ghost t3 = t2 + keyboards_handles(cs3) + seq![keyboards as int];
        proof {
            lemma_new_live_compose(ar0, a2, a3, t2, keyboards_handles(cs3) + seq![keyboards as int]);
            assert(t2 + (keyboards_handles(cs3) + seq![keyboards as int]) =~= t3);
        }

        let (layout, number_of_layout_ops) = export_layout(&self.layout, arena);
        let ghost a4 = *arena;
        let ghost t4 = t3 + seq![layout as int];
        proof {
            lemma_new_live_compose(ar0, a3, a4, t3, seq![layout as int]);
        }

        let (outputs, number_of_outputs) = match export_outputs(&self.outputs, arena) {
            Ok(v) => v,
            Err(e) => {
                proof {
                    lemma_grew_trans(ar0, a4, *arena);
                }
                rollback(arena, n0, Ghost(ar0));
                return Err(e);
            },
        };
        let ghost a5 = *arena;
        let ghost cs5 = a5.outputs_at(outputs as int);
        let ghost t5 = t4 + outputs_handles(cs5) + seq![outputs as int];
        proof {
            lemma_new_live_compose(ar0, a4, a5, t4, outputs_handles(cs5) + seq![outputs as int]);
            assert(t4 + (outputs_handles(cs5) + seq![outputs as int]) =~= t5);
        }

        let (workspaces, number_of_workspaces) = match export_workspaces(&self.workspaces, arena) {
            Ok(v) => v,
            Err(e) => {
                proof {
                    lemma_grew_trans(ar0, a5, *arena);
                }
                rollback(arena, n0, Ghost(ar0));
                return Err(e);
            },
        };
        let ghost a6 = *arena;
        let ghost cs6 = a6.text_array_at(workspaces as int);
        let ghost t6 = t5 + handle_ints(cs6) + seq![workspaces as int];
        proof {
            lemma_new_live_compose(
                ar0,
                a5,
                a6,
                t5,
                handle_ints(cs6) + seq![workspaces as int],
            );
            assert(t5 + (handle_ints(cs6) + seq![workspaces as int]) =~= t6);
        }

        let display_error_cmd = match str_to_c_char(
            &self.display_error_cmd,
            TextField::DisplayErrorCmd,
            arena,
        ) {
            Ok(h) => h,
            Err(e) => {
                proof {
                    lemma_grew_trans(ar0, a6, *arena);
                }
                rollback(arena, n0, Ghost(ar0));
                return Err(e);
            },
        };
        let ghost a7 = *arena;
        let ghost t7 = t6 + seq![display_error_cmd as int];
        proof {
            lemma_new_live_compose(ar0, a6, a7, t6, seq![display_error_cmd as int]);
        }

        let font = match str_to_c_char(&self.font, TextField::Font, arena) {
            Ok(h) => h,
            Err(e) => {
                proof {
                    lemma_grew_trans(ar0, a7, *arena);
                }
                rollback(arena, n0, Ghost(ar0));
                return Err(e);
            },
        };
        let ghost a8 = *arena;
        let ghost t8 = t7 + seq![font as int];
        proof {
            lemma_new_live_compose(ar0, a7, a8, t7, seq![font as int]);
        }

        let c = AwcConfig {
            active_border_color: self.active_border_color,
            inactive_border_color: self.inactive_border_color,
            border_width: self.border_width,
            display_error_cmd,
            font,
            modifier: self.modifier,
            output_hud: self.output_hud,
            button_bindings,
            number_of_button_bindings,
            key_bindings,
            number_of_key_bindings,
            keyboards,
            number_of_keyboards,
            layout,
            number_of_layout_ops,
            outputs,
            number_of_outputs,
            workspaces,
            number_of_workspaces,
        };
        proof {
            lemma_grew_trans(a6, a7, a8);
            lemma_grew_trans(a5, a6, a8);
            lemma_grew_trans(a4, a5, a8);
            lemma_grew_trans(a3, a4, a8);
            lemma_grew_trans(a2, a3, a8);
            lemma_grew_trans(a1, a2, a8);

            assert(a8.buttons_at(button_bindings as int) == cs1);
            assert(a8.keys_at(key_bindings as int) == cs2);
            assert(a8.keyboards_at(keyboards as int) == cs3);
            assert(a8.layout_ops_at(layout as int) == self.layout@);
            assert(a8.outputs_at(outputs as int) == cs5);
            assert(a8.text_array_at(workspaces as int) == cs6);
            assert(a8.text_at(display_error_cmd as int) == self.display_error_cmd@);

            assert forall|j: int| 0 <= j < cs1.len() implies button_wf(#[trigger] cs1[j], a8)
                && button_matches(cs1[j], self.button_bindings@[j], a8) by {
                lemma_port_button(cs1[j], self.button_bindings@[j], a1, a8);
            }
            assert forall|j: int| 0 <= j < cs2.len() implies key_wf(#[trigger] cs2[j], a8)
                && key_matches(cs2[j], self.key_bindings@[j], a8) by {
                lemma_port_key(cs2[j], self.key_bindings@[j], a2, a8);
            }
            assert forall|j: int| 0 <= j < cs3.len() implies keyboard_wf(#[trigger] cs3[j], a8)
                && keyboard_matches(cs3[j], self.keyboards@[j], a8) by {
                lemma_port_text(cs3[j].layout, a3, a8);
            }
            assert forall|j: int| 0 <= j < cs5.len() implies output_wf(#[trigger] cs5[j], a8)
                && output_matches(cs5[j], self.outputs@[j], a8) by {
                lemma_port_text(cs5[j].name, a5, a8);
            }
            assert forall|j: int| 0 <= j < cs6.len() implies text_handle_wf(#[trigger] cs6[j], a8)
                && a8.text_at(cs6[j] as int) == self.workspaces@[j]@ by {
                lemma_port_text(cs6[j], a6, a8);
            }
            lemma_port_text(display_error_cmd, a7, a8);

            assert(config_handles(c, a8) =~= t8);
            assert(config_wf(c, a8));
            assert(config_matches(c, *self, a8));
        }
        Ok(c)
    }
}

pub proof fn lemma_buttons_handles_take(s: Seq<AwcButtonBinding>, i: int)
    requires
        0 <= i < s.len(),
    ensures
        buttons_handles(s.take(i + 1)) == buttons_handles(s.take(i)) + s[i].handles(),
{
    assert(s.take(i + 1).drop_last() =~= s.take(i));
    assert(s.take(i + 1).last() == s[i]);
}

pub proof fn lemma_keys_handles_take(s: Seq<AwcKeyBinding>, i: int)
    requires
        0 <= i < s.len(),
    ensures
        keys_handles(s.take(i + 1)) == keys_handles(s.take(i)) + s[i].handles(),
{
    assert(s.take(i + 1).drop_last() =~= s.take(i));
    assert(s.take(i + 1).last() == s[i]);
}

pub proof fn lemma_keyboards_handles_take(s: Seq<AwcKeyboardConfig>, i: int)
    requires
        0 <= i < s.len(),
    ensures
        keyboards_handles(s.take(i + 1)) == keyboards_handles(s.take(i)) + s[i].handles(),
{
    assert(s.take(i + 1).drop_last() =~= s.take(i));
    assert(s.take(i + 1).last() == s[i]);
}

pub proof fn lemma_outputs_handles_take(s: Seq<AwcOutputConfig>, i: int)
    requires
        0 <= i < s.len(),
    ensures
        outputs_handles(s.take(i + 1)) == outputs_handles(s.take(i)) + s[i].handles(),
{
    assert(s.take(i + 1).drop_last() =~= s.take(i));
    assert(s.take(i + 1).last() == s[i]);
}

pub proof fn lemma_handle_ints_take(s: Seq<usize>, i: int)
    requires
        0 <= i < s.len(),
    ensures
        handle_ints(s.take(i + 1)) == handle_ints(s.take(i)) + seq![s[i] as int],
{
    assert(s.take(i + 1).drop_last() =~= s.take(i));
    assert(s.take(i + 1).last() == s[i]);
}

/// Pushes `h` onto the handle list, extending its slot-number view by one.
fn push_handle(hs: &mut Vec<usize>, h: usize)
    ensures
        final(hs)@ == old(hs)@.push(h),
        handle_ints(final(hs)@) == handle_ints(old(hs)@) + seq![h as int],
{
    proof {
        lemma_handle_ints_push(hs@, h);
    }
    hs.push(h);
}

/// Pushes the optional string handle of a flattened field, if any.
fn push_opt_handle(hs: &mut Vec<usize>, o: Option<usize>)
    ensures
        handle_ints(final(hs)@) == handle_ints(old(hs)@) + opt_handle(o),
        match o {
            Some(h) => final(hs)@ == old(hs)@.push(h),
            None => final(hs)@ == old(hs)@,
        },
{
    match o {
        Some(h) => {
            proof {
                assert(opt_handle(o) =~= seq![h as int]);
            }
            push_handle(hs, h);
        },
        None => {
            proof {
                assert(handle_ints(hs@) + opt_handle(o) =~= handle_ints(hs@));
            }
        },
    }
}

/// Walks an exported root in the exact shape the export produced and lists
/// every owned handle once, in teardown order: per collection the
/// element-owned handles then the array, then the root's own strings.
#[verifier::loop_isolation(false)]
#[verifier::rlimit(100)]
fn collect_config_handles(c: &AwcConfig, arena: &Arena) -> (hs: Vec<usize>)
    requires
        arena.wf(),
        config_wf(*c, *arena),
    ensures
        handle_ints(hs@) == config_handles(*c, *arena),
        forall|j: int| 0 <= j < hs@.len() ==> arena.is_live(#[trigger] hs@[j] as int),
{
    let mut hs: Vec<usize> = Vec::new();

    let buttons = arena.get_buttons(c.button_bindings);
    let ghost bs = arena.buttons_at(c.button_bindings as int);
    let mut i: usize = 0;
    while i < buttons.len()
        invariant
            i <= bs.len(),
            handle_ints(hs@) == buttons_handles(bs.take(i as int)),
            forall|j: int| 0 <= j < hs@.len() ==> arena.is_live(#[trigger] hs@[j] as int),
        decreases bs.len() - i,
    {
        push_handle(&mut hs, buttons[i].mods);
        proof {
            lemma_buttons_handles_take(bs, i as int);
            assert(bs[i as int].handles() =~= seq![bs[i as int].mods as int]);
        }
        i += 1;
    }
    proof {
        assert(bs.take(bs.len() as int) =~= bs);
    }
    push_handle(&mut hs, c.button_bindings);
    let ghost tb = buttons_handles(bs) + seq![c.button_bindings as int];

    let keys = arena.get_keys(c.key_bindings);
    let ghost ks = arena.keys_at(c.key_bindings as int);
    let mut i: usize = 0;
    while i < keys.len()
        invariant
            i <= ks.len(),
            handle_ints(hs@) == tb + keys_handles(ks.take(i as int)),
            forall|j: int| 0 <= j < hs@.len() ==> arena.is_live(#[trigger] hs@[j] as int),
        decreases ks.len() - i,
    {
        let k = keys[i];
        let ghost before = handle_ints(hs@);
        push_handle(&mut hs, k.mods);
        push_opt_handle(&mut hs, k.sym);
        push_opt_handle(&mut hs, k.action.execute);
        push_opt_handle(&mut hs, k.action.greedy_view);
        push_opt_handle(&mut hs, k.action.swap_workspace_tag_with);
        push_opt_handle(&mut hs, k.action.move_to);
        push_opt_handle(&mut hs, k.action.view);
        proof {
            lemma_keys_handles_take(ks, i as int);
            assert(k == ks[i as int]);
            assert(key_wf(k, *arena));
            assert(handle_ints(hs@) == before + seq![k.mods as int] + opt_handle(k.sym)
                + opt_handle(k.action.execute) + opt_handle(k.action.greedy_view) + opt_handle(
                k.action.swap_workspace_tag_with,
            ) + opt_handle(k.action.move_to) + opt_handle(k.action.view));
            assert(k.handles() =~= seq![k.mods as int] + opt_handle(k.sym) + opt_handle(
                k.action.execute,
            ) + opt_handle(k.action.greedy_view) + opt_handle(k.action.swap_workspace_tag_with)
                + opt_handle(k.action.move_to) + opt_handle(k.action.view));
            assert(handle_ints(hs@) =~= before + k.handles());
            assert(tb + keys_handles(ks.take(i + 1)) =~= before + k.handles());
        }
        i += 1;
    }
    proof {
        assert(ks.take(ks.len() as int) =~= ks);
    }
    push_handle(&mut hs, c.key_bindings);
    let ghost tk = tb + keys_handles(ks) + seq![c.key_bindings as int];
    proof {
        assert(tk =~= (tb + keys_handles(ks)) + seq![c.key_bindings as int]);
    }

    let keyboards = arena.get_keyboards(c.keyboards);
    let ghost kbs = arena.keyboards_at(c.keyboards as int);
    let mut i: usize = 0;
    while i < keyboards.len()
        invariant
            i <= kbs.len(),
            handle_ints(hs@) == tk + keyboards_handles(kbs.take(i as int)),
            forall|j: int| 0 <= j < hs@.len() ==> arena.is_live(#[trigger] hs@[j] as int),
        decreases kbs.len() - i,
    {
        push_handle(&mut hs, keyboards[i].layout);
        proof {
            lemma_keyboards_handles_take(kbs, i as int);
            assert(kbs[i as int].handles() =~= seq![kbs[i as int].layout as int]);
        }
        i += 1;
    }
    proof {
        assert(kbs.take(kbs.len() as int) =~= kbs);
    }
    push_handle(&mut hs, c.keyboards);
    push_handle(&mut hs, c.layout);
    let ghost tl = tk + keyboards_handles(kbs) + seq![c.keyboards as int] + seq![c.layout as int];
    proof {
        assert(handle_ints(hs@) =~= tl);
    }

    let outputs = arena.get_outputs(c.outputs);
    let ghost os = arena.outputs_at(c.outputs as int);
    let mut i: usize = 0;
    while i < outputs.len()
        invariant
            i <= os.len(),
            handle_ints(hs@) == tl + outputs_handles(os.take(i as int)),
            forall|j: int| 0 <= j < hs@.len() ==> arena.is_live(#[trigger] hs@[j] as int),
        decreases os.len() - i,
    {
        push_handle(&mut hs, outputs[i].name);
        proof {
            lemma_outputs_handles_take(os, i as int);
            assert(os[i as int].handles() =~= seq![os[i as int].name as int]);
        }
        i += 1;
    }
    proof {
        assert(os.take(os.len() as int) =~= os);
    }
    push_handle(&mut hs, c.outputs);
    let ghost to = tl + outputs_handles(os) + seq![c.outputs as int];
    proof {
        assert(handle_ints(hs@) =~= to);
    }

    let workspaces = arena.get_text_array(c.workspaces);
    let ghost ws = arena.text_array_at(c.workspaces as int);
    let mut i: usize = 0;
    while i < workspaces.len()
        invariant
            i <= ws.len(),
            handle_ints(hs@) == to + handle_ints(ws.take(i as int)),
            forall|j: int| 0 <= j < hs@.len() ==> arena.is_live(#[trigger] hs@[j] as int),
        decreases ws.len() - i,
    {
        push_handle(&mut hs, workspaces[i]);
        proof {
            lemma_handle_ints_take(ws, i as int);
        }
        i += 1;
    }
    proof {
        assert(ws.take(ws.len() as int) =~= ws);
    }
    push_handle(&mut hs, c.workspaces);
    push_handle(&mut hs, c.display_error_cmd);
    push_handle(&mut hs, c.font);
    proof {
        assert(handle_ints(hs@) =~= config_handles(*c, *arena));
    }
    hs
}

/// Frees each listed live handle exactly once, touching nothing else.
fn free_all(arena: &mut Arena, hs: &Vec<usize>)
    requires
        old(arena).wf(),
        handle_ints(hs@).no_duplicates(),
        forall|j: int| 0 <= j < hs@.len() ==> old(arena).is_live(#[trigger] hs@[j] as int),
    ensures
        final(arena).wf(),
        final(arena).len() == old(arena).len(),
        forall|i: int|
            0 <= i < final(arena).len() ==> final(arena).alloc_at(i) == old(arena).alloc_at(i),
        forall|i: int|
            final(arena).is_live(i) <==> (old(arena).is_live(i) && !handle_ints(hs@).contains(i)),
        final(arena).live_count() == old(arena).live_count() - hs@.len(),
{
    let ghost his = handle_ints(hs@);
    proof {
        lemma_handle_ints_len(hs@);
    }
    let mut j: usize = 0;
    while j < hs.len()
        invariant
            arena.wf(),
            arena.len() == old(arena).len(),
            j <= hs@.len(),
            his == handle_ints(hs@),
            his.len() == hs@.len(),
            his.no_duplicates(),
            forall|k: int| 0 <= k < hs@.len() ==> his[k] == #[trigger] hs@[k] as int,
            forall|k: int| 0 <= k < hs@.len() ==> old(arena).is_live(#[trigger] hs@[k] as int),
            forall|i: int|
                0 <= i < arena.len() ==> arena.alloc_at(i) == old(arena).alloc_at(i),
            forall|i: int|
                arena.is_live(i) <==> (old(arena).is_live(i) && !his.take(j as int).contains(i)),
            arena.live_count() == old(arena).live_count() - j,
        decreases hs@.len() - j,
    {
        let h = hs[j];
        proof {
            assert(his[j as int] == h as int);
            assert(!his.take(j as int).contains(h as int)) by {
                if his.take(j as int).contains(h as int) {
                    let k = choose|k: int|
                        0 <= k < j && his.take(j as int)[k] == h as int;
                    assert(his[k] == his[j as int]);
                }
            }
        }
        arena.free(h);
        proof {
            assert forall|i: int|
                arena.is_live(i) <==> (old(arena).is_live(i) && !his.take(j + 1).contains(
                    i,
                )) by {
                assert(his.take(j + 1).drop_last() =~= his.take(j as int));
                if i == h as int {
                    assert(his.take(j + 1)[j as int] == h as int);
                    assert(his.take(j + 1).contains(i));
                } else {
                    if his.take(j + 1).contains(i) {
                        let k = choose|k: int| 0 <= k < j + 1 && #[trigger] his.take(j + 1)[k] == i;
                        if k < j {
                            assert(his.take(j as int)[k] == i);
                            assert(his.take(j as int).contains(i));
                        }
                    }
                    if his.take(j as int).contains(i) {
                        let k = choose|k: int| 0 <= k < j && #[trigger] his.take(j as int)[k] == i;
                        assert(his.take(j + 1)[k] == i);
                    }
                }
            }
        }
        j += 1;
    }
    proof {
        assert(his.take(his.len() as int) =~= his);
    }
}

/// The slot-number view of a handle list keeps its length.
pub proof fn lemma_handle_ints_len(s: Seq<usize>)
    ensures
        handle_ints(s).len() == s.len(),
        forall|k: int| 0 <= k < s.len() ==> handle_ints(s)[k] == #[trigger] s[k] as int,
    decreases s.len(),
{
    if s.len() > 0 {
        lemma_handle_ints_len(s.drop_last());
        assert forall|k: int| 0 <= k < s.len() implies handle_ints(s)[k] == s[k] as int by {
            if k < s.len() - 1 {
                assert(handle_ints(s)[k] == handle_ints(s.drop_last())[k]);
                assert(s.drop_last()[k] == s[k]);
            } else {
                assert(handle_ints(s)[k] == s.last() as int);
            }
        }
    }
}

/// Tears down one exported root: reclaims, exactly once each, every owned
/// array, every element-owned string and array, and the root's own strings,
/// in the exact shape the export produced them, and touches no allocation
/// that the root does not own.
pub fn awc_config_free(config: &AwcConfig, arena: &mut Arena)
    requires
        old(arena).wf(),
        config_wf(*config, *old(arena)),
    ensures
        final(arena).wf(),
        final(arena).len() == old(arena).len(),
        forall|i: int|
            0 <= i < final(arena).len() ==> final(arena).alloc_at(i) == old(arena).alloc_at(i),
        forall|i: int|
            final(arena).is_live(i) <==> (old(arena).is_live(i) && !config_handles(
                *config,
                *old(arena),
            ).contains(i)),
        final(arena).live_count() == old(arena).live_count() - config_handles(
            *config,
            *old(arena),
        ).len(),
{
    let hs = collect_config_handles(config, arena);
    proof {
        lemma_handle_ints_len(hs@);
    }
    free_all(arena, &hs);
}

/// Frees one optional owned string, exactly once; the null sentinel is
/// tolerated and nothing is freed for it.
pub fn awc_config_str_free(arena: &mut Arena, s: Option<usize>)
    requires
        old(arena).wf(),
        s is Some ==> old(arena).is_live(s->0 as int),
    ensures
        final(arena).wf(),
        final(arena).len() == old(arena).len(),
        forall|i: int|
            0 <= i < final(arena).len() ==> final(arena).alloc_at(i) == old(arena).alloc_at(i),
        match s {
            Some(h) => {
                &&& !final(arena).is_live(h as int)
                &&& forall|i: int|
                    0 <= i < final(arena).len() && i != h ==> (final(arena).is_live(i) <==> old(
                        arena,
                    ).is_live(i))
                &&& final(arena).live_count() == old(arena).live_count() - 1
            },
            None => *final(arena) == *old(arena),
        },
{
    if let Some(h) = s {
        arena.free(h);
    }
}

/// The net-allocation law: an export followed by its teardown restores the
/// arena's live set exactly — nothing the export allocated outlives the
/// teardown, and nothing else is ever freed. `base` is the arena before the
/// export, `exported` the arena after it returned a root owning `hs`, and
/// `freed` the arena after the teardown reclaimed `hs`.
pub proof fn lemma_export_free_net_zero(base: Arena, exported: Arena, freed: Arena, hs: Seq<int>)
    requires
        base.wf(),
        grew(base, exported),
        new_live_exactly(base, exported, hs),
        forall|i: int| freed.is_live(i) <==> (exported.is_live(i) && !hs.contains(i)),
    ensures
        forall|i: int| freed.is_live(i) <==> base.is_live(i),
{
    assert forall|i: int| freed.is_live(i) <==> base.is_live(i) by {
        if hs.contains(i) {
            let k = choose|k: int| 0 <= k < hs.len() && #[trigger] hs[k] == i;
            assert(base.len() <= hs[k]);
            assert(!base.is_live(i));
        } else if 0 <= i < base.len() {
            assert(exported.is_live(i) <==> base.is_live(i));
        } else if base.len() <= i < exported.len() {
            assert(!exported.is_live(i) || hs.contains(i));
            assert(!base.is_live(i));
        } else {
            assert(!exported.is_live(i));
            assert(!base.is_live(i));
        }
    }
}

/// The determinism law for the flattened action encoding: two exports of
/// the same tree action, into any two arenas, activate exactly the same
/// fields with the same values, and their owned strings hold the same bytes.
/// In particular the active-field pattern a host dispatches on never depends
/// on allocation history.
pub proof fn lemma_action_flattening_deterministic(
    a: Action,
    f1: AwcAction,
    ar1: Arena,
    f2: AwcAction,
    ar2: Arena,
)
    requires
        action_matches(f1, a, ar1),
        action_matches(f2, a, ar2),
    ensures
        f1.close == f2.close,
        f1.config_reload == f2.config_reload,
        f1.expand == f2.expand,
        f1.focus_down == f2.focus_down,
        f1.focus_up == f2.focus_up,
        f1.focus_primary == f2.focus_primary,
        f1.shrink == f2.shrink,
        f1.sink == f2.sink,
        f1.swap_down == f2.swap_down,
        f1.swap_up == f2.swap_up,
        f1.swap_primary == f2.swap_primary,
        f1.swap_workspaces == f2.swap_workspaces,
        f1.next_layout == f2.next_layout,
        f1.reset_layouts == f2.reset_layouts,
        f1.focus_output == f2.focus_output,
        f1.move_to_output == f2.move_to_output,
        f1.switch_vt == f2.switch_vt,
        f1.execute is Some <==> f2.execute is Some,
        f1.greedy_view is Some <==> f2.greedy_view is Some,
        f1.swap_workspace_tag_with is Some <==> f2.swap_workspace_tag_with is Some,
        f1.move_to is Some <==> f2.move_to is Some,
        f1.view is Some <==> f2.view is Some,
        f1.execute is Some ==> ar1.text_at(f1.execute->0 as int) == ar2.text_at(
            f2.execute->0 as int,
        ),
        f1.greedy_view is Some ==> ar1.text_at(f1.greedy_view->0 as int) == ar2.text_at(
            f2.greedy_view->0 as int,
        ),
        f1.swap_workspace_tag_with is Some ==> ar1.text_at(f1.swap_workspace_tag_with->0 as int)
            == ar2.text_at(f2.swap_workspace_tag_with->0 as int),
        f1.move_to is Some ==> ar1.text_at(f1.move_to->0 as int) == ar2.text_at(
            f2.move_to->0 as int,
        ),
        f1.view is Some ==> ar1.text_at(f1.view->0 as int) == ar2.text_at(f2.view->0 as int),
{
}

/// Well-formedness of an owned string and its bytes survive further
/// allocation.
pub proof fn lemma_port_text(h: usize, a1: Arena, a2: Arena)
    requires
        a1.wf(),
        grew(a1, a2),
        text_handle_wf(h, a1),
    ensures
        text_handle_wf(h, a2),
        a2.text_at(h as int) == a1.text_at(h as int),
{
    assert(0 <= h < a1.len());
    assert(a2.alloc_at(h as int) == a1.alloc_at(h as int));
    assert(a2.is_live(h as int));
}

} // verus!
