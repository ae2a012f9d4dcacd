use incredibulk_core::b64;
use incredibulk_core::imaging::prepare;
use incredibulk_core::ImagePayload;

fn solid(width: usize, height: usize) -> ImagePayload {
    ImagePayload::raw(width, height, vec![120; width * height * 4])
}

#[test]
fn a_captured_image_gains_a_png_and_a_thumbnail() {
    let mut payload = solid(8, 6);
    prepare(&mut payload);
    assert!(payload.is_embeddable());
    assert!(payload.png.starts_with(&[137, 80, 78, 71]), "PNG magic number");
    assert!(payload.thumbnail.starts_with("data:image/png;base64,"));
}

#[test]
fn a_large_image_is_thumbnailed_down() {
    let mut payload = solid(400, 300);
    prepare(&mut payload);
    // The thumbnail must be far smaller than the full encoding, otherwise
    // pushing the list on every capture would carry the whole screenshot.
    assert!(
        payload.thumbnail.len() < payload.png.len(),
        "thumbnail {} should be smaller than png {}",
        payload.thumbnail.len(),
        payload.png.len()
    );
}

#[test]
fn a_buffer_that_does_not_match_its_dimensions_is_left_alone() {
    let mut payload = ImagePayload::raw(10, 10, vec![0; 4]);
    prepare(&mut payload);
    assert!(!payload.is_embeddable(), "no half-decoded image is invented");
    assert!(payload.thumbnail.is_empty());
}

#[test]
fn an_empty_image_is_left_alone() {
    let mut payload = ImagePayload::raw(0, 0, Vec::new());
    prepare(&mut payload);
    assert!(payload.png.is_empty());
}

#[test]
fn the_data_uri_round_trips_through_base64() {
    let mut payload = solid(4, 4);
    prepare(&mut payload);
    let uri = payload.data_uri().expect("an embeddable image");
    let encoded = uri.strip_prefix("data:image/png;base64,").expect("the prefix");
    assert_eq!(b64::decode(encoded).as_deref(), Some(payload.png.as_slice()));
}
