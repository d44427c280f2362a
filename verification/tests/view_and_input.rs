use rafx_framework::egui_input::{
    accepts_text, egui_key, egui_mouse_button, handle_key_press, is_printable_char, winit_mouse_cursor,
    EguiCursorIcon, InputEvent, Key, Modifiers, MouseButton, PointerButton, VirtualKeyCode, WinitCursorIcon,
};
use rafx_framework::view_masks::{
    default_main_view_masks, RenderFeature, RenderFeatureFlag, RenderOptions, RenderPhase,
};

fn options() -> RenderOptions {
    RenderOptions {
        show_wireframes: false,
        show_debug3d: true,
        show_text: false,
        show_skybox: true,
        enable_lighting: true,
        enable_textures: false,
        show_shadows: true,
    }
}

#[test]
fn main_view_draws_every_phase() {
    let (phases, _, _) = default_main_view_masks(&options(), false);
    for p in [
        RenderPhase::DepthPrepass,
        RenderPhase::Opaque,
        RenderPhase::Transparent,
        RenderPhase::Wireframe,
        RenderPhase::DebugPip,
        RenderPhase::Ui,
    ] {
        assert!(phases.contains(p));
    }
}

#[test]
fn main_view_features_follow_the_options() {
    let (_, features, flags) = default_main_view_masks(&options(), true);
    assert!(features.contains(RenderFeature::Mesh));
    assert!(features.contains(RenderFeature::Sprite));
    assert!(features.contains(RenderFeature::TileLayer));
    assert!(features.contains(RenderFeature::DebugPip));
    assert!(features.contains(RenderFeature::Egui));
    assert!(!features.contains(RenderFeature::Text));
    assert!(features.contains(RenderFeature::Debug3D));
    assert!(features.contains(RenderFeature::Skybox));
    assert!(!flags.contains(RenderFeatureFlag::MeshWireframe));
    assert!(!flags.contains(RenderFeatureFlag::MeshUnlit));
    assert!(flags.contains(RenderFeatureFlag::MeshUntextured));
    assert!(!flags.contains(RenderFeatureFlag::MeshNoShadows));

    let (_, features, flags) = default_main_view_masks(
        &RenderOptions {
            show_wireframes: true,
            show_debug3d: false,
            show_text: true,
            show_skybox: false,
            enable_lighting: false,
            enable_textures: true,
            show_shadows: false,
        },
        false,
    );
    assert!(!features.contains(RenderFeature::Egui));
    assert!(features.contains(RenderFeature::Text));
    assert!(!features.contains(RenderFeature::Skybox));
    assert!(flags.contains(RenderFeatureFlag::MeshWireframe));
    assert!(flags.contains(RenderFeatureFlag::MeshUnlit));
    assert!(!flags.contains(RenderFeatureFlag::MeshUntextured));
    assert!(flags.contains(RenderFeatureFlag::MeshNoShadows));
}

#[test]
fn keys_map_to_ui_keys() {
    assert_eq!(egui_key(VirtualKeyCode::Back), Some(Key::Backspace));
    assert_eq!(egui_key(VirtualKeyCode::Return), Some(Key::Enter));
    assert_eq!(egui_key(VirtualKeyCode::Down), Some(Key::ArrowDown));
    assert_eq!(egui_key(VirtualKeyCode::Numpad3), Some(Key::Num3));
    assert_eq!(egui_key(VirtualKeyCode::Key3), Some(Key::Num3));
    assert_eq!(egui_key(VirtualKeyCode::Q), Some(Key::Q));
    assert_eq!(egui_key(VirtualKeyCode::LShift), None);
    assert_eq!(egui_key(VirtualKeyCode::Other), None);
}

#[test]
fn mouse_buttons_and_cursors_map() {
    assert_eq!(egui_mouse_button(MouseButton::Left), Some(PointerButton::Primary));
    assert_eq!(egui_mouse_button(MouseButton::Right), Some(PointerButton::Secondary));
    assert_eq!(egui_mouse_button(MouseButton::Middle), Some(PointerButton::Middle));
    assert_eq!(egui_mouse_button(MouseButton::Other(4)), None);
    assert_eq!(winit_mouse_cursor(EguiCursorIcon::PointingHand), Some(WinitCursorIcon::Hand));
    assert_eq!(winit_mouse_cursor(EguiCursorIcon::ResizeHorizontal), Some(WinitCursorIcon::EwResize));
    assert_eq!(winit_mouse_cursor(EguiCursorIcon::ResizeNwSe), Some(WinitCursorIcon::NwseResize));
    assert_eq!(winit_mouse_cursor(EguiCursorIcon::Hidden), None);
}

#[test]
fn printable_characters() {
    assert!(is_printable_char('a'));
    assert!(is_printable_char(' '));
    assert!(is_printable_char('é'));
    assert!(!is_printable_char('\n'));
    assert!(!is_printable_char('\t'));
    assert!(!is_printable_char('\u{7f}'));
    assert!(!is_printable_char('\u{e000}'));
    assert!(!is_printable_char('\u{f8ff}'));
    assert!(is_printable_char('\u{f900}'));
    assert!(!is_printable_char('\u{10fffd}'));
    let none = Modifiers { alt: false, ctrl: false, shift: false, mac_cmd: false, command: false };
    assert!(accepts_text('x', &none));
    assert!(!accepts_text('x', &Modifiers { ctrl: true, ..none }));
    assert!(!accepts_text('x', &Modifiers { mac_cmd: true, ..none }));
}

#[test]
fn control_c_copies_and_modifiers_follow_keys() {
    let mut m = Modifiers { alt: false, ctrl: false, shift: false, mac_cmd: false, command: false };
    let mut events = Vec::new();
    handle_key_press(&mut m, &mut events, Some(VirtualKeyCode::LControl), true, false);
    assert!(m.ctrl && m.command && !m.mac_cmd);
    assert!(events.is_empty());
    handle_key_press(&mut m, &mut events, Some(VirtualKeyCode::C), true, false);
    assert_eq!(events, vec![InputEvent::Copy, InputEvent::Key { key: Key::C, pressed: true, modifiers: m }]);
    events.clear();
    handle_key_press(&mut m, &mut events, Some(VirtualKeyCode::X), false, false);
    assert_eq!(events, vec![InputEvent::Key { key: Key::X, pressed: false, modifiers: m }]);
    handle_key_press(&mut m, &mut events, Some(VirtualKeyCode::RControl), false, false);
    assert!(!m.ctrl && !m.command);
    let before = m;
    handle_key_press(&mut m, &mut events, None, true, false);
    assert_eq!(m, before);
}

#[test]
fn on_macos_the_windows_key_is_command() {
    let mut m = Modifiers { alt: false, ctrl: false, shift: false, mac_cmd: false, command: false };
    let mut events = Vec::new();
    handle_key_press(&mut m, &mut events, Some(VirtualKeyCode::LWin), true, true);
    assert!(m.mac_cmd && m.command && !m.ctrl);
    handle_key_press(&mut m, &mut events, Some(VirtualKeyCode::X), true, true);
    assert_eq!(events[0], InputEvent::Cut);
    handle_key_press(&mut m, &mut events, Some(VirtualKeyCode::LAlt), true, true);
    assert!(m.alt && m.command);
}
