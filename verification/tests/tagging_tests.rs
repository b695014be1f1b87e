use release_tagger::album_tags;
use release_tagger::parse_release_data;
use release_tagger::parse_release_id;
use release_tagger::serialize_tags;
use release_tagger::track_documents;
use release_tagger::trim_artist;
use release_tagger::u32_to_string;
use release_tagger::Release;
use release_tagger::TagDocument;
use release_tagger::ReleaseArtist;
use release_tagger::ReleaseImage;
use release_tagger::ReleaseTrack;
use release_tagger::TagName;

fn bare_release() -> Release {
    Release {
        id: 1,
        title: "title".to_string(),
        year: 2000,
        country: None,
        genres: None,
        artists: None,
        images: None,
        tracklist: None,
    }
}

fn full_release() -> Release {
    Release {
        id: 1,
        title: "title".to_string(),
        year: 2000,
        country: Some("Japan".to_string()),
        genres: Some(vec!["genre".to_string()]),
        artists: Some(vec![ReleaseArtist {
            id: 123,
            name: "artist_name".to_string(),
        }]),
        images: Some(vec![ReleaseImage {
            resource_url: "image_url".to_string(),
            image_type: "primary".to_string(),
            height: 80,
            width: 100,
        }]),
        tracklist: Some(vec![
            ReleaseTrack {
                duration: "1:00".to_string(),
                position: "1".to_string(),
                title: "title1".to_string(),
                extra_artists: None,
            },
            ReleaseTrack {
                duration: "3:00".to_string(),
                position: "2".to_string(),
                title: "title2".to_string(),
                extra_artists: None,
            },
        ]),
    }
}

#[test]
fn scenario_full_release_two_documents() {
    let docs = track_documents(&full_release());
    assert_eq!(docs.len(), 2);
    let expected_first: Vec<(TagName, String)> = vec![
        (TagName::Year, "2000".to_string()),
        (TagName::Genre, "genre".to_string()),
        (TagName::Artist, "artist_name".to_string()),
        (TagName::Album, "title".to_string()),
        (TagName::Country, "Japan".to_string()),
        (TagName::Title, "title1".to_string()),
        (TagName::Tracknumber, "1".to_string()),
    ];
    let expected_second: Vec<(TagName, String)> = vec![
        (TagName::Year, "2000".to_string()),
        (TagName::Genre, "genre".to_string()),
        (TagName::Artist, "artist_name".to_string()),
        (TagName::Album, "title".to_string()),
        (TagName::Country, "Japan".to_string()),
        (TagName::Title, "title2".to_string()),
        (TagName::Tracknumber, "2".to_string()),
    ];
    assert_eq!(docs[0].tags, expected_first);
    assert_eq!(docs[1].tags, expected_second);

    let album_data = parse_release_data(full_release());
    assert_eq!(album_data.song_data_vec.len(), 2);
    assert_eq!(album_data.song_data_vec[0].title, "title1");
    assert_eq!(album_data.song_data_vec[1].title, "title2");
    assert_eq!(album_data.image_url, Some("image_url".to_string()));
    let expected_xml = "<?xml version=\"1.0\"?>\n<tags>\n    <tag name=\"YEAR\" value=\"2000\"/>\n    <tag name=\"GENRE\" value=\"genre\"/>\n    <tag name=\"ARTIST\" value=\"artist_name\"/>\n    <tag name=\"ALBUM\" value=\"title\"/>\n    <tag name=\"COUNTRY\" value=\"Japan\"/>\n    <tag name=\"TITLE\" value=\"title1\"/>\n    <tag name=\"TRACKNUMBER\" value=\"1\"/>\n</tags>";
    assert_eq!(album_data.song_data_vec[0].xml, expected_xml);
}

#[test]
fn scenario_artist_names() {
    assert_eq!(trim_artist("Artist (2)"), "Artist");
    assert_eq!(trim_artist("3776"), "3776");
    assert_eq!(trim_artist("3776 (2)"), "3776");
}

#[test]
fn scenario_identifier_inputs() {
    assert_eq!(
        parse_release_id("https://example.com/My-Bloody-Valentine-Loveless/release/243919"),
        Some(243919)
    );
    assert_eq!(parse_release_id("abcde/1"), None);
}

#[test]
fn projector_selects_last_elements() {
    let mut release = full_release();
    release.genres = Some(vec!["rock".to_string(), "shoegaze".to_string()]);
    release.artists = Some(vec![
        ReleaseArtist {
            id: 1,
            name: "First".to_string(),
        },
        ReleaseArtist {
            id: 2,
            name: "Second (2)".to_string(),
        },
    ]);
    release.images = Some(vec![
        ReleaseImage {
            resource_url: "first_url".to_string(),
            image_type: "secondary".to_string(),
            height: 10,
            width: 10,
        },
        ReleaseImage {
            resource_url: "last_url".to_string(),
            image_type: "primary".to_string(),
            height: 20,
            width: 20,
        },
    ]);
    let doc = album_tags(&release);
    let expected: Vec<(TagName, String)> = vec![
        (TagName::Year, "2000".to_string()),
        (TagName::Genre, "shoegaze".to_string()),
        (TagName::Artist, "Second".to_string()),
        (TagName::Album, "title".to_string()),
        (TagName::Country, "Japan".to_string()),
    ];
    assert_eq!(doc.tags, expected);
    let album_data = parse_release_data(release);
    assert_eq!(album_data.image_url, Some("last_url".to_string()));
}

#[test]
fn projector_omits_absent_and_empty_lists() {
    let doc = album_tags(&bare_release());
    let expected: Vec<(TagName, String)> = vec![
        (TagName::Year, "2000".to_string()),
        (TagName::Album, "title".to_string()),
    ];
    assert_eq!(doc.tags, expected);

    let mut release = bare_release();
    release.genres = Some(vec![]);
    release.artists = Some(vec![]);
    release.images = Some(vec![]);
    let doc = album_tags(&release);
    assert_eq!(doc.tags, expected);
    let album_data = parse_release_data(release);
    assert_eq!(album_data.image_url, None);
}

#[test]
fn assembler_empty_or_absent_tracklist_yields_no_documents() {
    assert_eq!(track_documents(&bare_release()).len(), 0);
    assert_eq!(parse_release_data(bare_release()).song_data_vec.len(), 0);
    let mut release = bare_release();
    release.tracklist = Some(vec![]);
    assert_eq!(track_documents(&release).len(), 0);
    assert_eq!(parse_release_data(release).song_data_vec.len(), 0);
}

#[test]
fn assembler_passes_position_through_verbatim() {
    let mut release = bare_release();
    release.tracklist = Some(vec![ReleaseTrack {
        duration: "4:33".to_string(),
        position: "A1".to_string(),
        title: "Side opener".to_string(),
        extra_artists: None,
    }]);
    let docs = track_documents(&release);
    assert_eq!(docs.len(), 1);
    let last = docs[0].tags.len() - 1;
    assert_eq!(
        docs[0].tags[last],
        (TagName::Tracknumber, "A1".to_string())
    );
}

#[test]
fn serializer_is_deterministic() {
    let a = serialize_tags(&album_tags(&full_release()));
    let b = serialize_tags(&album_tags(&full_release()));
    assert_eq!(a, b);
}

#[test]
fn trim_artist_edge_cases() {
    assert_eq!(trim_artist(""), "");
    assert_eq!(trim_artist("Artist (2) (3)"), "Artist");
    assert_eq!(trim_artist("Artist ()"), "Artist");
    assert_eq!(trim_artist("Artist(2)"), "Artist(2)");
    assert_eq!(trim_artist("Artist (2x)"), "Artist (2x)");
    assert_eq!(trim_artist("Artist (2) x"), "Artist (2) x");
    assert_eq!(trim_artist(" (1)"), "");
}

#[test]
fn trim_artist_is_idempotent_on_samples() {
    let samples = vec![
        "Artist (2)",
        "Artist (2) (3)",
        "3776",
        " (1)",
        "Artist ()",
        "Björk (2)",
        "Name (12x)",
    ];
    for s in samples {
        let once = trim_artist(s);
        let twice = trim_artist(&once);
        assert_eq!(twice, once);
    }
}

#[test]
fn identifier_edge_cases() {
    assert_eq!(parse_release_id("4294967295"), Some(4294967295));
    assert_eq!(parse_release_id("4294967296"), None);
    assert_eq!(parse_release_id("+100"), Some(100));
    assert_eq!(parse_release_id("00243919"), Some(243919));
    assert_eq!(parse_release_id("release/5"), Some(5));
    assert_eq!(parse_release_id("/5"), None);
    assert_eq!(parse_release_id("a/release/7"), Some(7));
    assert_eq!(parse_release_id("a/releasex/7"), None);
    assert_eq!(parse_release_id("x/release/"), None);
    assert_eq!(parse_release_id("release"), None);
}

#[test]
fn unicode_values_pass_through() {
    assert_eq!(trim_artist("Björk (2)"), "Björk");
    assert_eq!(trim_artist("Björk"), "Björk");
    let doc = TagDocument {
        tags: vec![(TagName::Artist, "Björk — ジャパン".to_string())],
    };
    let xml = serialize_tags(&doc);
    assert!(xml.contains("value=\"Björk — ジャパン\""));
}

#[test]
fn empty_document_serializes_to_bare_root() {
    let doc = TagDocument { tags: vec![] };
    assert_eq!(serialize_tags(&doc), "<?xml version=\"1.0\"?>\n<tags>\n</tags>");
}

#[test]
fn numeral_renders_exact_decimals() {
    assert_eq!(u32_to_string(0), "0");
    assert_eq!(u32_to_string(7), "7");
    assert_eq!(u32_to_string(2000), "2000");
    assert_eq!(u32_to_string(4294967295), "4294967295");
}
