use symmetric_concurrent::page::empty;
use symmetric_concurrent::shared::{Song, PAGE_SIZE, SONG_FIELD_LEN};

#[test]
fn song_new_pads_fields_with_zeros() {
    let song = Song::new(7, "Cry Baby", "The Neighbourhood");
    assert_eq!(song.id, 7);
    assert_eq!(&song.title[..8], b"Cry Baby");
    assert!(song.title[8..].iter().all(|b| *b == 0));
    assert_eq!(&song.artist[..17], b"The Neighbourhood");
    assert!(song.artist[17..].iter().all(|b| *b == 0));
}

#[test]
fn song_new_takes_fields_of_full_width() {
    let title = "a".repeat(SONG_FIELD_LEN);
    let song = Song::new(1, &title, "");
    assert!(song.title.iter().all(|b| *b == b'a'));
    assert!(song.artist.iter().all(|b| *b == 0));
}

#[test]
fn default_song_is_invalid() {
    let song = Song::default();
    assert_eq!(song.id, -1);
    assert_eq!(song.title, [0u8; SONG_FIELD_LEN]);
    assert_eq!(song.artist, [0u8; SONG_FIELD_LEN]);
}

#[test]
fn empty_page_is_zeroed() {
    let page = empty();
    assert_eq!(page.len(), PAGE_SIZE);
    assert!(page.iter().all(|b| *b == 0));
}
