use transcode_orchestrator::resolve::convert_tauri_url_to_path;
use transcode_orchestrator::CoreError;

#[test]
fn asset_url_with_encoded_backslashes_resolves_to_native_path() {
    let r = convert_tauri_url_to_path("http://asset.localhost/C%5Cvideos%5Cclip.mp4");
    assert_eq!(r, Ok("C\\videos\\clip.mp4".to_string()));
}

#[test]
fn plain_path_is_unchanged() {
    let r = convert_tauri_url_to_path("/home/user/clip.mp4");
    assert_eq!(r, Ok("/home/user/clip.mp4".to_string()));
}

#[test]
fn prefix_is_stripped_without_escapes() {
    let r = convert_tauri_url_to_path("http://asset.localhost/videos/clip.mp4");
    assert_eq!(r, Ok("videos/clip.mp4".to_string()));
}

#[test]
fn doubly_encoded_backslash_is_restored() {
    // %255C decodes to the literal text %5C, which the resolver then turns
    // into a backslash.
    let r = convert_tauri_url_to_path("http://asset.localhost/C%255Cclip.mp4");
    assert_eq!(r, Ok("C\\clip.mp4".to_string()));
}

#[test]
fn marker_inside_the_path_is_kept() {
    // Only a leading local-asset prefix is stripped.
    let r = convert_tauri_url_to_path("http://asset.localhost/a/http://asset.localhost/b.mp4");
    assert_eq!(r, Ok("a/http://asset.localhost/b.mp4".to_string()));
}

#[test]
fn invalid_utf8_encoding_is_a_decode_error() {
    let r = convert_tauri_url_to_path("%FF");
    assert_eq!(r, Err(CoreError::DecodeError));
}

#[test]
fn percent_decoding_covers_spaces() {
    let r = convert_tauri_url_to_path("http://asset.localhost/My%20Movie.mp4");
    assert_eq!(r, Ok("My Movie.mp4".to_string()));
}
