use qwley_launcher::offsets::{extract_hex, offsets_url, parse_offsets};

#[test]
fn extract_hex_takes_the_first_literal() {
    assert_eq!(extract_hex("constexpr uintptr_t Pointer = 0x7A3B10;"), Some("0x7A3B10".to_string()));
    assert_eq!(extract_hex("x = 0XdeadBEEF, y = 0x1"), Some("0XdeadBEEF".to_string()));
    assert_eq!(extract_hex("0x"), Some("0x".to_string()));
    assert_eq!(extract_hex("value 0xg1"), Some("0x".to_string()));
    assert_eq!(extract_hex("no literal here"), None);
    assert_eq!(extract_hex(""), None);
}

const HEADER: &str = "// generated\n\
namespace VisualEngine {\n\
    inline constexpr uintptr_t Pointer = 0x6F1A2B8; // engine\n\
    inline constexpr uintptr_t ToRenderView = 0x800; /* view */\n\
    inline constexpr uintptr_t RenderView = 0x1E8;\n\
}\n\
inline constexpr uintptr_t DeviceD3D11 = 0x8;\n\
inline constexpr uintptr_t JobStart = 0x1D0;\n";

#[test]
fn parse_offsets_reads_the_visual_engine_block() {
    let o = parse_offsets("version-abc", HEADER);
    assert_eq!(o.version, "version-abc");
    assert_eq!(o.visual_engine_pointer, "0x6F1A2B8");
    assert_eq!(o.visual_engine_to_render_view, "0x1E8");
    assert_eq!(o.render_view_to_device, "0x8");
    assert_eq!(o.device_to_swap_chain, "0x1D0");
}

#[test]
fn parse_offsets_ignores_pointers_outside_the_block() {
    let body = "uintptr_t Pointer = 0x10;\nstruct VisualEngine {\n};\nuintptr_t RenderView = 0x20;\n";
    let o = parse_offsets("v", body);
    assert_eq!(o.visual_engine_pointer, "Not Found");
    assert_eq!(o.visual_engine_to_render_view, "Not Found");
    assert_eq!(o.render_view_to_device, "Not Found");
    assert_eq!(o.device_to_swap_chain, "Not Found");
}

#[test]
fn parse_offsets_later_lines_win_and_comments_are_dropped() {
    let body = "DeviceD3D11 = 0x1\r\ndeviced3d11 = 0x2 // 0x9\nJOBSTART = 0x6 /* 0x5 */\nJobStart = // 0x7\nJobStart /* 0x8 */ = 0x9\n";
    let o = parse_offsets("v", body);
    assert_eq!(o.render_view_to_device, "0x2");
    assert_eq!(o.device_to_swap_chain, "0x6");
}

#[test]
fn parse_offsets_of_an_empty_body_finds_nothing() {
    let o = parse_offsets("v", "");
    assert_eq!(o.visual_engine_pointer, "Not Found");
    assert_eq!(o.device_to_swap_chain, "Not Found");
}

#[test]
fn offsets_url_names_the_version_folder() {
    assert_eq!(offsets_url("version-abc"), "https://offsets.imtheo.lol/version-version-abc/offsets.hpp");
}
