use release_tagger::parse_release_data;
use release_tagger::parse_release_id;
use release_tagger::trim_artist;
use release_tagger::Release;
use release_tagger::ReleaseArtist;
use release_tagger::ReleaseImage;
use release_tagger::ReleaseTrack;

#[test]
fn parse_release_id_test() {
    assert_eq!(parse_release_id(&mut "".to_string()), None);
    assert_eq!(parse_release_id(&mut "abcde".to_string()), None);
    assert_eq!(parse_release_id(&mut "-1".to_string()), None);
    assert_eq!(parse_release_id(&mut "0".to_string()), Some(0));
    assert_eq!(parse_release_id(&mut "100".to_string()), Some(100));
    assert_eq!(parse_release_id(&mut "abcde/1".to_string()), None);
    assert_eq!(
        parse_release_id(
            &mut "https://www.discogs.com/My-Bloody-Valentine-Loveless/release/243919".to_string()
        ),
        Some(243919)
    );
}

#[test]
fn trim_artist_test() {
    assert_eq!(trim_artist("Artist"), "Artist");
    assert_eq!(trim_artist("Artist (2)"), "Artist");
    assert_eq!(trim_artist("Artist (100)"), "Artist");
    assert_eq!(trim_artist("3776"), "3776");
    assert_eq!(trim_artist("3776 (2)"), "3776")
}

#[test]
fn parse_release_info_test() {
    let mut release = Release {
        id: 1234,
        title: "title".to_string(),
        year: 2000,
        country: None,
        genres: None,
        artists: Some(vec![ReleaseArtist {
            id: 123,
            name: "artist_name".to_string(),
        }]),
        images: None,
        tracklist: None,
    };
    release.genres = Some(vec!["genre".to_string()]);
    release.country = Some("Japan".to_string());
    release.images = Some(vec![ReleaseImage {
        resource_url: "image_url".to_string(),
        image_type: "primary".to_string(),
        height: 80,
        width: 100,
    }]);
    release.tracklist = Some(vec![
        ReleaseTrack {
            duration: "1:00".to_string(),
            position: "1".to_string(),
            title: "title1".to_string(),
            extra_artists: None,
        },
        ReleaseTrack {
            duration: "3:00".to_string(),
            position: "2".to_string(),
            title: "title2".to_string(),
            extra_artists: None,
        },
    ]);
    let release_info = parse_release_data(release);
    assert_eq!(release_info.image_url, Some("image_url".to_string()));
}
