use std::io::Cursor;

use hot_reload::assets::{
    asset_update, frame_parts, image_asset_name, initial_watches, install, shader_asset_name, AssetUpdate,
};
use hot_reload::watch::WatchAction;
use hot_reload::Event;

fn png_bytes(width: u32, height: u32) -> Vec<u8> {
    let img = image::RgbaImage::new(width, height);
    let mut out = Cursor::new(Vec::new());
    img.write_to(&mut out, image::ImageFormat::Png).unwrap();
    out.into_inner()
}

#[test]
fn asset_names() {
    assert_eq!(image_asset_name(), "nuero.png");
    assert_eq!(shader_asset_name(), "shader.wgsl");
}

#[test]
fn initial_watches_cover_both_assets() {
    let cmds = initial_watches();
    assert_eq!(cmds.len(), 2);
    assert_eq!(cmds[0].name, "nuero.png");
    assert!(matches!(cmds[0].action, WatchAction::Start));
    assert_eq!(cmds[1].name, "shader.wgsl");
    assert!(matches!(cmds[1].action, WatchAction::Start));
}

#[test]
fn image_asset_decodes() {
    let event = Event::FileContents("nuero.png".to_owned(), png_bytes(3, 2));
    match asset_update(event) {
        AssetUpdate::Image(img) => {
            assert_eq!(img.width(), 3);
            assert_eq!(img.height(), 2);
        }
        _ => panic!("expected an image"),
    }
}

#[test]
fn malformed_image_changes_nothing() {
    let event = Event::FileContents("nuero.png".to_owned(), b"not a png".to_vec());
    assert!(matches!(asset_update(event), AssetUpdate::Unchanged));
}

#[test]
fn shader_asset_reads_as_text() {
    let event = Event::FileContents("shader.wgsl".to_owned(), "fn vs_main() {}".as_bytes().to_vec());
    match asset_update(event) {
        AssetUpdate::Shader(text) => assert_eq!(text, "fn vs_main() {}"),
        _ => panic!("expected shader text"),
    }
}

#[test]
fn non_utf8_shader_changes_nothing() {
    let event = Event::FileContents("shader.wgsl".to_owned(), vec![0x66, 0xff, 0xfe]);
    assert!(matches!(asset_update(event), AssetUpdate::Unchanged));
}

#[test]
fn unknown_name_changes_nothing() {
    let event = Event::FileContents("readme.txt".to_owned(), png_bytes(1, 1));
    assert!(matches!(asset_update(event), AssetUpdate::Unchanged));
    let event = Event::FileContents("shader.wgsl.bak".to_owned(), b"text".to_vec());
    assert!(matches!(asset_update(event), AssetUpdate::Unchanged));
}

#[test]
fn failed_shader_keeps_previous_pipeline() {
    let mut pipeline: Option<&str> = None;
    assert!(install(&mut pipeline, Some("valid")));
    assert_eq!(pipeline, Some("valid"));
    assert!(!install(&mut pipeline, None));
    assert_eq!(pipeline, Some("valid"));
    assert!(install(&mut pipeline, Some("newer")));
    assert_eq!(pipeline, Some("newer"));
}

#[test]
fn redraw_needs_pipeline_and_bind_group() {
    let none_pipeline: Option<&str> = None;
    let none_group: Option<u8> = None;
    assert_eq!(frame_parts(&none_pipeline, &Some(1u8)), None);
    assert_eq!(frame_parts(&Some("p"), &none_group), None);
    assert_eq!(frame_parts(&Some("p"), &Some(1u8)), Some((&"p", &1u8)));
}

#[test]
fn redraw_after_failed_shader_reload_uses_previous_pipeline() {
    let mut pipeline: Option<&str> = None;
    let group: Option<u8> = Some(9);
    let valid = asset_update(Event::FileContents("shader.wgsl".to_owned(), b"valid".to_vec()));
    let AssetUpdate::Shader(_) = valid else { panic!("expected shader text") };
    assert!(install(&mut pipeline, Some("compiled")));
    let invalid = asset_update(Event::FileContents("shader.wgsl".to_owned(), vec![0xc3, 0x28]));
    assert!(matches!(invalid, AssetUpdate::Unchanged));
    assert!(!install(&mut pipeline, None));
    assert_eq!(frame_parts(&pipeline, &group), Some((&"compiled", &9u8)));
}

