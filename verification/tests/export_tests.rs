use awc_client::arena::{Allocation, Arena};
use awc_client::flat::AwcConfig;
use awc_client::tree::{
    Action, AwcButton, AwcButtonAction, AwcColor, AwcDirection, AwcKeyboardType, AwcLayoutOp,
    AwcModifier, AwcOutputHudConfig, AwcWindowSelection, ButtonBinding, Config, Key, KeyBinding,
    KeyboardConfig, OutputConfig, TextField,
};
use awc_client::export::awc_config_free;

fn color(r: u8, g: u8, b: u8, a: u8) -> AwcColor {
    AwcColor { r, g, b, a }
}

fn hud() -> AwcOutputHudConfig {
    AwcOutputHudConfig {
        active_background_color: color(1, 2, 3, 4),
        active_foreground_color: color(5, 6, 7, 8),
        inactive_background_color: color(9, 10, 11, 12),
        inactive_foreground_color: color(13, 14, 15, 16),
    }
}

fn empty_config() -> Config {
    Config {
        border_width: 2,
        active_border_color: color(255, 0, 0, 255),
        inactive_border_color: color(0, 0, 0, 255),
        font: b"monospace".to_vec(),
        modifier: AwcModifier::Logo,
        display_error_cmd: b"swaynag".to_vec(),
        button_bindings: vec![],
        key_bindings: vec![],
        keyboards: vec![],
        layout: vec![],
        outputs: vec![],
        output_hud: hud(),
        workspaces: vec![],
    }
}

fn full_config() -> Config {
    let mut c = empty_config();
    c.button_bindings = vec![
        ButtonBinding {
            mods: vec![AwcModifier::Logo],
            button: AwcButton::Left,
            action: AwcButtonAction::Move,
            window: AwcWindowSelection::Focused,
        },
        ButtonBinding {
            mods: vec![AwcModifier::Logo, AwcModifier::Shift],
            button: AwcButton::Right,
            action: AwcButtonAction::Resize,
            window: AwcWindowSelection::UnderCursor,
        },
    ];
    c.key_bindings = vec![
        KeyBinding {
            mods: vec![AwcModifier::Logo],
            key: Key::Sym(b"Return".to_vec()),
            action: Action::Execute(b"alacritty".to_vec()),
        },
        KeyBinding {
            mods: vec![AwcModifier::Ctrl],
            key: Key::Code(38),
            action: Action::FocusDown,
        },
    ];
    c.keyboards = vec![KeyboardConfig {
        layout: b"de(neo)".to_vec(),
        type_: AwcKeyboardType::Builtin,
    }];
    c.layout = vec![
        AwcLayoutOp::Choose,
        AwcLayoutOp::TwoPane {
            split_bits: 0x3fe0000000000000,
            delta_bits: 0x3fa0000000000000,
        },
        AwcLayoutOp::Reflected(AwcDirection::Horizontal),
    ];
    c.outputs = vec![OutputConfig {
        name: b"eDP-1".to_vec(),
        x: 0,
        y: 0,
        scale_bits: 0x3fc00000,
    }];
    c.workspaces = vec![b"1".to_vec(), b"2".to_vec(), b"mail".to_vec()];
    c
}

fn export_ok(c: &Config, arena: &mut Arena) -> AwcConfig {
    match c.export(arena) {
        Ok(f) => f,
        Err(e) => panic!("export failed: {:?}", e),
    }
}

#[test]
fn export_then_free_is_net_zero_for_empty_collections() {
    let mut arena = Arena::new();
    assert_eq!(arena.live_allocations(), 0);
    let cfg = empty_config();
    let flat = export_ok(&cfg, &mut arena);
    assert!(arena.live_allocations() > 0);
    awc_config_free(&flat, &mut arena);
    assert_eq!(arena.live_allocations(), 0);
}

#[test]
fn export_then_free_is_net_zero_for_full_config() {
    let mut arena = Arena::new();
    let cfg = full_config();
    let flat = export_ok(&cfg, &mut arena);
    assert!(arena.live_allocations() > 0);
    awc_config_free(&flat, &mut arena);
    assert_eq!(arena.live_allocations(), 0);
}

#[test]
fn free_leaves_an_unrelated_export_intact() {
    let mut arena = Arena::new();
    let first = export_ok(&empty_config(), &mut arena);
    let live_after_first = arena.live_allocations();
    let second = export_ok(&full_config(), &mut arena);
    awc_config_free(&second, &mut arena);
    assert_eq!(arena.live_allocations(), live_after_first);
    // the first root's data is still there
    assert_eq!(arena.get_text(first.font), &b"monospace".to_vec());
    awc_config_free(&first, &mut arena);
    assert_eq!(arena.live_allocations(), 0);
}

#[test]
fn button_bindings_keep_count_and_order() {
    let mut arena = Arena::new();
    let cfg = full_config();
    let flat = export_ok(&cfg, &mut arena);
    assert_eq!(flat.number_of_button_bindings, 2);
    let buttons = arena.get_buttons(flat.button_bindings).clone();
    assert_eq!(buttons.len(), 2);
    assert_eq!(buttons[0].button, AwcButton::Left);
    assert_eq!(buttons[0].action, AwcButtonAction::Move);
    assert_eq!(buttons[0].window, AwcWindowSelection::Focused);
    assert_eq!(buttons[0].number_of_mods, 1);
    assert_eq!(arena.get_mods(buttons[0].mods), &vec![AwcModifier::Logo]);
    assert_eq!(buttons[1].button, AwcButton::Right);
    assert_eq!(buttons[1].number_of_mods, 2);
    assert_eq!(
        arena.get_mods(buttons[1].mods),
        &vec![AwcModifier::Logo, AwcModifier::Shift]
    );
}

#[test]
fn collections_arrive_in_declaration_order() {
    let mut arena = Arena::new();
    let cfg = full_config();
    let flat = export_ok(&cfg, &mut arena);

    assert_eq!(flat.number_of_key_bindings, 2);
    let keys = arena.get_keys(flat.key_bindings).clone();
    assert_eq!(keys[0].code, 0);
    let sym = keys[0].sym.expect("symbolic key has a string");
    assert_eq!(arena.get_text(sym), &b"Return".to_vec());
    let exec = keys[0].action.execute.expect("execute action has a string");
    assert_eq!(arena.get_text(exec), &b"alacritty".to_vec());
    assert!(keys[0].action.close == false);
    assert_eq!(keys[1].code, 38);
    assert!(keys[1].sym.is_none());
    assert!(keys[1].action.focus_down);

    assert_eq!(flat.number_of_layout_ops, 3);
    let ops = arena.get_layout_ops(flat.layout).clone();
    assert_eq!(ops[0], AwcLayoutOp::Choose);
    assert_eq!(
        ops[1],
        AwcLayoutOp::TwoPane {
            split_bits: 0x3fe0000000000000,
            delta_bits: 0x3fa0000000000000,
        }
    );
    assert_eq!(ops[2], AwcLayoutOp::Reflected(AwcDirection::Horizontal));

    assert_eq!(flat.number_of_workspaces, 3);
    let ws = arena.get_text_array(flat.workspaces).clone();
    assert_eq!(arena.get_text(ws[0]), &b"1".to_vec());
    assert_eq!(arena.get_text(ws[1]), &b"2".to_vec());
    assert_eq!(arena.get_text(ws[2]), &b"mail".to_vec());

    assert_eq!(flat.number_of_outputs, 1);
    let outs = arena.get_outputs(flat.outputs).clone();
    assert_eq!(arena.get_text(outs[0].name), &b"eDP-1".to_vec());
    assert_eq!(outs[0].x, 0);
    assert_eq!(outs[0].scale_bits, 0x3fc00000);

    assert_eq!(flat.number_of_keyboards, 1);
    let kbs = arena.get_keyboards(flat.keyboards).clone();
    assert_eq!(arena.get_text(kbs[0].layout), &b"de(neo)".to_vec());
    assert_eq!(kbs[0].type_, AwcKeyboardType::Builtin);

    assert_eq!(flat.border_width, 2);
    assert_eq!(flat.modifier, AwcModifier::Logo);
    assert_eq!(arena.get_text(flat.display_error_cmd), &b"swaynag".to_vec());
    assert_eq!(arena.get_text(flat.font), &b"monospace".to_vec());
}

#[test]
fn terminator_in_font_fails_atomically() {
    let mut arena = Arena::new();
    let mut cfg = empty_config();
    cfg.font = b"mono\0space".to_vec();
    let err = cfg.export(&mut arena).unwrap_err();
    assert_eq!(err.field, TextField::Font);
    assert_eq!(arena.live_allocations(), 0);
}

#[test]
fn terminator_in_each_field_is_reported() {
    let cases: Vec<(Config, TextField)> = vec![
        {
            let mut c = empty_config();
            c.display_error_cmd = b"\0".to_vec();
            (c, TextField::DisplayErrorCmd)
        },
        {
            let mut c = empty_config();
            c.workspaces = vec![b"ok".to_vec(), b"w\0s".to_vec()];
            (c, TextField::Workspace)
        },
        {
            let mut c = empty_config();
            c.keyboards = vec![KeyboardConfig {
                layout: b"de\0".to_vec(),
                type_: AwcKeyboardType::External,
            }];
            (c, TextField::KeyboardLayout)
        },
        {
            let mut c = empty_config();
            c.outputs = vec![OutputConfig {
                name: b"eDP\0-1".to_vec(),
                x: 1,
                y: 2,
                scale_bits: 0,
            }];
            (c, TextField::OutputName)
        },
        {
            let mut c = empty_config();
            c.key_bindings = vec![KeyBinding {
                mods: vec![],
                key: Key::Sym(b"Re\0turn".to_vec()),
                action: Action::Close,
            }];
            (c, TextField::KeySymbol)
        },
        {
            let mut c = empty_config();
            c.key_bindings = vec![KeyBinding {
                mods: vec![],
                key: Key::Code(1),
                action: Action::Execute(b"a\0b".to_vec()),
            }];
            (c, TextField::ExecuteCommand)
        },
        {
            let mut c = empty_config();
            c.key_bindings = vec![KeyBinding {
                mods: vec![],
                key: Key::Code(1),
                action: Action::View(b"\0".to_vec()),
            }];
            (c, TextField::ViewTarget)
        },
    ];
    for (cfg, field) in cases {
        let mut arena = Arena::new();
        let err = cfg.export(&mut arena).unwrap_err();
        assert_eq!(err.field, field);
        assert_eq!(arena.live_allocations(), 0);
    }
}

#[test]
fn first_offending_field_wins() {
    // a bad key symbol is hit before a bad font
    let mut arena = Arena::new();
    let mut cfg = empty_config();
    cfg.key_bindings = vec![KeyBinding {
        mods: vec![],
        key: Key::Sym(b"\0".to_vec()),
        action: Action::Close,
    }];
    cfg.font = b"\0".to_vec();
    let err = cfg.export(&mut arena).unwrap_err();
    assert_eq!(err.field, TextField::KeySymbol);
    assert_eq!(arena.live_allocations(), 0);
}

#[test]
fn error_descriptions_match_the_field() {
    assert_eq!(TextField::ExecuteCommand.description(), "execute command");
    assert_eq!(TextField::GreedyViewTarget.description(), "greedyView target");
    assert_eq!(TextField::MoveTarget.description(), "move target");
    assert_eq!(TextField::SwapWorkspaceTag.description(), "swap workspace tag");
    assert_eq!(TextField::ViewTarget.description(), "view target");
    assert_eq!(TextField::KeySymbol.description(), "Key symbol");
    assert_eq!(TextField::KeyboardLayout.description(), "keyboard layout");
    assert_eq!(TextField::OutputName.description(), "output name");
    assert_eq!(TextField::Workspace.description(), "workspace");
    assert_eq!(TextField::DisplayErrorCmd.description(), "displayErrorCmd");
    assert_eq!(TextField::Font.description(), "font");
}

#[test]
fn discriminants_follow_declaration_order() {
    assert_eq!(AwcModifier::Alt.tag(), 0);
    assert_eq!(AwcModifier::Ctrl.tag(), 1);
    assert_eq!(AwcModifier::Logo.tag(), 2);
    assert_eq!(AwcModifier::Mod5.tag(), 3);
    assert_eq!(AwcModifier::Shift.tag(), 4);
    assert_eq!(AwcButton::Left.tag(), 0);
    assert_eq!(AwcButton::Right.tag(), 1);
    assert_eq!(AwcButtonAction::Move.tag(), 0);
    assert_eq!(AwcButtonAction::Resize.tag(), 1);
    assert_eq!(AwcButtonAction::ResizeByFrame.tag(), 2);
    assert_eq!(AwcKeyboardType::Builtin.tag(), 0);
    assert_eq!(AwcKeyboardType::External.tag(), 1);
    assert_eq!(AwcDirection::Horizontal.tag(), 0);
    assert_eq!(AwcDirection::Vertical.tag(), 1);
    assert_eq!(AwcLayoutOp::Choose.tag(), 0);
    assert_eq!(AwcLayoutOp::Full.tag(), 1);
    assert_eq!(
        AwcLayoutOp::TwoPane { split_bits: 0, delta_bits: 0 }.tag(),
        2
    );
    assert_eq!(AwcLayoutOp::Reflected(AwcDirection::Vertical).tag(), 3);
    assert_eq!(AwcLayoutOp::Rotated.tag(), 4);
    assert_eq!(AwcLayoutOp::Push.tag(), 5);
    assert_eq!(AwcWindowSelection::Focused.tag(), 0);
    assert_eq!(AwcWindowSelection::UnderCursor.tag(), 1);
}

#[test]
fn repeated_exports_are_identical() {
    let mut arena1 = Arena::new();
    let mut arena2 = Arena::new();
    let flat1 = export_ok(&full_config(), &mut arena1);
    let flat2 = export_ok(&full_config(), &mut arena2);
    let keys1 = arena1.get_keys(flat1.key_bindings).clone();
    let keys2 = arena2.get_keys(flat2.key_bindings).clone();
    assert_eq!(keys1.len(), keys2.len());
    for (k1, k2) in keys1.iter().zip(keys2.iter()) {
        assert_eq!(k1.code, k2.code);
        assert_eq!(k1.sym.is_some(), k2.sym.is_some());
        assert_eq!(k1.action.close, k2.action.close);
        assert_eq!(k1.action.execute.is_some(), k2.action.execute.is_some());
        assert_eq!(k1.action.focus_down, k2.action.focus_down);
    }
    let ops1 = arena1.get_layout_ops(flat1.layout).clone();
    let ops2 = arena2.get_layout_ops(flat2.layout).clone();
    assert_eq!(ops1, ops2);
    assert_eq!(flat1.modifier, flat2.modifier);
    assert_eq!(flat1.border_width, flat2.border_width);
}

#[test]
fn str_free_tolerates_the_null_sentinel() {
    let mut arena = Arena::new();
    let before = arena.live_allocations();
    awc_client::export::awc_config_str_free(&mut arena, None);
    assert_eq!(arena.live_allocations(), before);
    let (h, n) = awc_client::arena::vec_into_raw(&mut arena, Allocation::Text(b"x".to_vec()));
    assert_eq!(n, 1);
    assert_eq!(arena.live_allocations(), 1);
    awc_client::export::awc_config_str_free(&mut arena, Some(h));
    assert_eq!(arena.live_allocations(), 0);
}
