use angolmois::directive::Span;
use angolmois::path::{find_entry, path_parts};

fn names(list: &[&str]) -> Vec<Vec<u8>> {
    list.iter().map(|s| s.as_bytes().to_vec()).collect()
}

#[test]
fn both_slashes_part_a_path() {
    assert_eq!(
        path_parts(b"sounds/drums\\kick.wav"),
        vec![Span { from: 0, to: 6 }, Span { from: 7, to: 12 }, Span { from: 13, to: 21 }]
    );
}

#[test]
fn empty_parts_of_a_path_are_left_out() {
    assert_eq!(path_parts(b"//a///b/"), vec![Span { from: 2, to: 3 }, Span { from: 6, to: 7 }]);
    assert_eq!(path_parts(b""), vec![]);
    assert_eq!(path_parts(b"\\/"), vec![]);
    assert_eq!(path_parts(b"x"), vec![Span { from: 0, to: 1 }]);
}

#[test]
fn a_file_is_found_without_regard_to_case() {
    let dir = names(&["readme.txt", "Kick.WAV", "kick.wav"]);
    assert_eq!(find_entry(&dir, b"KICK.wav", &names(&[])), Some(1));
    assert_eq!(find_entry(&dir, b"snare.wav", &names(&[])), None);
}

#[test]
fn a_file_with_another_ending_serves() {
    let exts = names(&[".WAV", ".OGG", ".MP3"]);
    let dir = names(&["kick.txt", "snare.ogg", "kick.ogg"]);
    // the first file with the name serves, whatever its ending
    assert_eq!(find_entry(&dir, b"kick.wav", &exts), Some(0));
    assert_eq!(find_entry(&dir, b"snare.mp3", &exts), Some(1));
    // but only where the chart asks for one of the endings
    assert_eq!(find_entry(&dir, b"snare.bmp", &exts), None);
    // and only where the file has an ending at all
    assert_eq!(find_entry(&names(&["kick"]), b"kick.wav", &exts), None);
    assert_eq!(find_entry(&names(&["kick"]), b"KICK", &exts), Some(0));
}

#[test]
fn only_the_last_ending_of_a_file_is_replaced() {
    let exts = names(&[".WAV"]);
    assert_eq!(find_entry(&names(&["a.b.ogg"]), b"a.b.wav", &exts), Some(0));
    assert_eq!(find_entry(&names(&["a.b.ogg"]), b"a.wav", &exts), None);
    // endings are given in upper case
    assert_eq!(find_entry(&names(&["a.ogg"]), b"a.wav", &names(&[".wav"])), None);
}
