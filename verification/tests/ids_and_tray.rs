use bloom::ids::{encode_id, id_at, new_id};
use bloom::tray::{fallback_icon, pick_icon, tray_icon_rgba, IconRgba, FALLBACK_SIZE};

const ALPHABET: &str = "0123456789ABCDEFGHJKMNPQRSTVWXYZ";

#[test]
fn encode_id_exact_values() {
    assert_eq!(encode_id(0, &[0u8; 10]), "00000000000000000000000000");
    assert_eq!(encode_id(1, &[0xFFu8; 10]), "0000000001ZZZZZZZZZZZZZZZZ");
    assert_eq!(
        encode_id(1_700_000_000_000, &[1, 2, 3, 4, 5, 6, 7, 8, 9, 10]),
        "01HF7YAT00041061050R3GG28A"
    );
}

#[test]
fn ids_sort_by_time() {
    let earlier = encode_id(1000, &[0xFFu8; 10]);
    let later = encode_id(1001, &[0u8; 10]);
    assert_eq!(earlier, "00000000Z8ZZZZZZZZZZZZZZZZ");
    assert!(earlier < later);
    assert!(encode_id(1_699_999_999_999, &[9u8; 10]) < encode_id(1_700_000_000_000, &[0u8; 10]));
}

#[test]
fn new_id_has_ulid_shape() {
    let a = new_id().unwrap();
    let b = new_id().unwrap();
    assert_eq!(a.chars().count(), 26);
    assert!(a.chars().all(|c| ALPHABET.contains(c)));
    assert_ne!(a, b);
    assert!(a[..10] <= b[..10]);
    assert_ne!(&a[..10], "0000000000");
}

fn png_bytes(w: u32, h: u32) -> Vec<u8> {
    let img = image::RgbaImage::from_pixel(w, h, image::Rgba([1, 2, 3, 4]));
    let mut out = std::io::Cursor::new(Vec::new());
    img.write_to(&mut out, image::ImageFormat::Png).unwrap();
    out.into_inner()
}

#[test]
fn fallback_icon_is_blue_square() {
    let i = fallback_icon();
    assert_eq!((i.width, i.height), (FALLBACK_SIZE, FALLBACK_SIZE));
    assert_eq!(i.rgba.len(), 16 * 16 * 4);
    for px in i.rgba.chunks(4) {
        assert_eq!(px, &[0x1A, 0x63, 0xEB, 0xFF]);
    }
}

#[test]
fn tray_icon_falls_back_when_nothing_decodes() {
    let i = tray_icon_rgba(None, None);
    assert_eq!((i.width, i.height, i.rgba.len()), (16, 16, 1024));
    let i = tray_icon_rgba(Some(b"not a png".to_vec()), Some(vec![]));
    assert_eq!((i.width, i.height, i.rgba.len()), (16, 16, 1024));
}

#[test]
fn tray_icon_prefers_packaged_png() {
    let i = tray_icon_rgba(Some(png_bytes(2, 3)), Some(png_bytes(5, 5)));
    assert_eq!((i.width, i.height), (2, 3));
    assert_eq!(i.rgba, [1u8, 2, 3, 4].repeat(6));
    let i = tray_icon_rgba(Some(b"broken".to_vec()), Some(png_bytes(5, 4)));
    assert_eq!((i.width, i.height, i.rgba.len()), (5, 4, 80));
}

#[test]
fn pick_icon_order() {
    let a = IconRgba { rgba: vec![0; 4], width: 1, height: 1 };
    let b = IconRgba { rgba: vec![0; 8], width: 2, height: 1 };
    assert_eq!(pick_icon(Some(a), Some(b)).width, 1);
    let b = IconRgba { rgba: vec![0; 8], width: 2, height: 1 };
    assert_eq!(pick_icon(None, Some(b)).width, 2);
    assert_eq!(pick_icon(None, None).width, 16);
}

#[test]
fn id_at_uses_milliseconds_of_the_reading() {
    let tail = [1u8, 2, 3, 4, 5, 6, 7, 8, 9, 10];
    assert_eq!(id_at(Some((1_700_000_000, 999_999)), &tail), "01HF7YAT00041061050R3GG28A");
    assert_eq!(id_at(Some((1_700_000_000, 1_000_000)), &tail), encode_id(1_700_000_000_001, &tail));
    assert_eq!(id_at(None, &[0u8; 10]), "00000000000000000000000000");
    assert!(id_at(Some((1, 0)), &[0xFF; 10]) < id_at(Some((1, 1_000_000)), &[0; 10]));
}
