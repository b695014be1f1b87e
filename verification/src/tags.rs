//! The release data model, the projection of a release onto the tag
//! vocabulary, and the assembly of one tag document per track.
//!
//! List-valued fields follow a "primary value" policy: the last element of
//! the list is the primary one, and an absent or empty list simply omits
//! the corresponding tag, which is never an error.

use vstd::prelude::*;

use crate::artist::spec_trim_artist;
use crate::artist::trim_artist;
use crate::numeral::spec_decimal;
use crate::numeral::u32_to_string;
use crate::xml::append_record;
use crate::xml::begin_document;
use crate::xml::end_document;
use crate::xml::lemma_records_take_snoc;
use crate::xml::root_open;
use crate::xml::spec_records;
use crate::xml::spec_serialize;
use crate::xml::xml_header;

verus! {

/// The fixed vocabulary of tag names.
#[derive(Clone, Copy, PartialEq, Eq, Structural, Debug)]
pub enum TagName {
    Year,
    Genre,
    Artist,
    Album,
    Country,
    Title,
    Tracknumber,
}

/// The textual form of a tag name.
pub open spec fn tag_name_chars(t: TagName) -> Seq<char> {
    match t {
        TagName::Year => seq!['Y', 'E', 'A', 'R'],
        TagName::Genre => seq!['G', 'E', 'N', 'R', 'E'],
        TagName::Artist => seq!['A', 'R', 'T', 'I', 'S', 'T'],
        TagName::Album => seq!['A', 'L', 'B', 'U', 'M'],
        TagName::Country => seq!['C', 'O', 'U', 'N', 'T', 'R', 'Y'],
        TagName::Title => seq!['T', 'I', 'T', 'L', 'E'],
        TagName::Tracknumber => seq!['T', 'R', 'A', 'C', 'K', 'N', 'U', 'M', 'B', 'E', 'R'],
    }
}

/// Renders a tag name as text.
pub fn tag_name_str(t: TagName) -> (r: &'static str)
    ensures
        r@ == tag_name_chars(t),
{
    proof {
        reveal_strlit("YEAR");
        reveal_strlit("GENRE");
        reveal_strlit("ARTIST");
        reveal_strlit("ALBUM");
        reveal_strlit("COUNTRY");
        reveal_strlit("TITLE");
        reveal_strlit("TRACKNUMBER");
    }
    let r = match t {
        TagName::Year => "YEAR",
        TagName::Genre => "GENRE",
        TagName::Artist => "ARTIST",
        TagName::Album => "ALBUM",
        TagName::Country => "COUNTRY",
        TagName::Title => "TITLE",
        TagName::Tracknumber => "TRACKNUMBER",
    };
    proof {
        assert(r@ =~= tag_name_chars(t));
    }
    r
}

/// An artist credit: a display name and a catalog identifier.
pub struct ReleaseArtist {
    pub id: u32,
    pub name: String,
}

/// An artwork reference: its URL, its kind, and its dimensions.
pub struct ReleaseImage {
    pub resource_url: String,
    pub image_type: String,
    pub height: u32,
    pub width: u32,
}

/// One track of a release's tracklist. The position is a string and may
/// be non-numeric (a vinyl side position such as "A1").
pub struct ReleaseTrack {
    pub position: String,
    pub title: String,
    pub duration: String,
    pub extra_artists: Option<Vec<ReleaseArtist>>,
}

/// An immutable snapshot of one catalog release. Any of the optional
/// fields may be absent; projection then omits the corresponding tag.
pub struct Release {
    pub id: u32,
    pub title: String,
    pub year: u32,
    pub country: Option<String>,
    pub genres: Option<Vec<String>>,
    pub artists: Option<Vec<ReleaseArtist>>,
    pub images: Option<Vec<ReleaseImage>>,
    pub tracklist: Option<Vec<ReleaseTrack>>,
}

/// An ordered sequence of (name, value) pairs destined for one track's
/// tag file.
pub struct TagDocument {
    pub tags: Vec<(TagName, String)>,
}

impl View for TagDocument {
    type V = Seq<(TagName, Seq<char>)>;

    open spec fn view(&self) -> Seq<(TagName, Seq<char>)> {
        self.tags@.map_values(|p: (TagName, String)| (p.0, p.1@))
    }
}

/// The GENRE tag of a release: the last listed genre, the list's most
/// specific entry, or nothing when the list is absent or empty.
pub open spec fn spec_genre_tags(r: Release) -> Seq<(TagName, Seq<char>)> {
    match r.genres {
        Some(gs) => if gs@.len() > 0 {
            seq![(TagName::Genre, gs@[gs@.len() - 1]@)]
        } else {
            Seq::empty()
        },
        None => Seq::empty(),
    }
}

/// The ARTIST tag of a release: the last listed artist's name, with any
/// trailing disambiguation suffix removed, or nothing.
pub open spec fn spec_artist_tags(r: Release) -> Seq<(TagName, Seq<char>)> {
    match r.artists {
        Some(ar) => if ar@.len() > 0 {
            seq![(TagName::Artist, spec_trim_artist(ar@[ar@.len() - 1].name@))]
        } else {
            Seq::empty()
        },
        None => Seq::empty(),
    }
}

/// The COUNTRY tag of a release, or nothing when the field is absent.
pub open spec fn spec_country_tags(r: Release) -> Seq<(TagName, Seq<char>)> {
    match r.country {
        Some(c) => seq![(TagName::Country, c@)],
        None => Seq::empty(),
    }
}

/// The album-level tags shared by every track of a release, in output
/// order: YEAR, GENRE, ARTIST, ALBUM, COUNTRY, the optional ones present
/// exactly when their source field is present and non-empty.
pub open spec fn spec_album_tags(r: Release) -> Seq<(TagName, Seq<char>)> {
    seq![(TagName::Year, spec_decimal(r.year as nat))] + spec_genre_tags(r) + spec_artist_tags(r)
        + seq![(TagName::Album, r.title@)] + spec_country_tags(r)
}

/// The tags of one track's document: the album-level tags followed by the
/// track's TITLE and its TRACKNUMBER, the position passed through
/// verbatim.
pub open spec fn spec_track_tags(r: Release, t: ReleaseTrack) -> Seq<(TagName, Seq<char>)> {
    spec_album_tags(r) + seq![(TagName::Title, t.title@), (TagName::Tracknumber, t.position@)]
}

/// The tracklist of a release, the empty sequence when absent.
pub open spec fn spec_tracklist(r: Release) -> Seq<ReleaseTrack> {
    match r.tracklist {
        Some(ts) => ts@,
        None => Seq::empty(),
    }
}

/// The artwork reference of a release: the last listed image's URL, or
/// nothing when the list is absent or empty.
pub open spec fn spec_image_url(r: Release) -> Option<Seq<char>> {
    match r.images {
        Some(im) => if im@.len() > 0 {
            Some(im@[im@.len() - 1].resource_url@)
        } else {
            None
        },
        None => None,
    }
}

/// Projects a release onto its album-level tag document.
pub fn album_tags(release: &Release) -> (d: TagDocument)
    ensures
        d@ == spec_album_tags(*release),
{
    let mut tags: Vec<(TagName, String)> = Vec::new();
    tags.push((TagName::Year, u32_to_string(release.year)));
    match &release.genres {
        Some(gs) => {
            if gs.len() > 0 {
                tags.push((TagName::Genre, gs[gs.len() - 1].clone()));
            }
        },
        None => {},
    }
    match &release.artists {
        Some(ar) => {
            if ar.len() > 0 {
                tags.push((TagName::Artist, trim_artist(ar[ar.len() - 1].name.as_str())));
            }
        },
        None => {},
    }
    tags.push((TagName::Album, release.title.clone()));
    match &release.country {
        Some(c) => {
            tags.push((TagName::Country, c.clone()));
        },
        None => {},
    }
    let d = TagDocument { tags };
    proof {
        assert(d@ =~= spec_album_tags(*release));
    }
    d
}

/// Assembles one tag document per track, in the tracklist's order, and
/// none at all when the tracklist is absent or empty.
pub fn track_documents(release: &Release) -> (docs: Vec<TagDocument>)
    ensures
        docs@.len() == spec_tracklist(*release).len(),
        forall|i: int|
            0 <= i < docs@.len() ==> docs@[i]@ == spec_track_tags(
                *release,
                spec_tracklist(*release)[i],
            ),
{
    let mut docs: Vec<TagDocument> = Vec::new();
    match &release.tracklist {
        Some(ts) => {
            let n = ts.len();
            let mut i: usize = 0;
            while i < n
                invariant
                    i <= n,
                    n == spec_tracklist(*release).len(),
                    ts@ == spec_tracklist(*release),
                    docs@.len() == i,
                    forall|j: int|
                        0 <= j < i as int ==> docs@[j]@ == spec_track_tags(
                            *release,
                            spec_tracklist(*release)[j],
                        ),
                decreases n - i,
            {
                let mut doc = album_tags(release);
                doc.tags.push((TagName::Title, ts[i].title.clone()));
                doc.tags.push((TagName::Tracknumber, ts[i].position.clone()));
                proof {
                    assert(doc@ =~= spec_track_tags(*release, spec_tracklist(*release)[i as int]));
                }
                docs.push(doc);
                i = i + 1;
            }
        },
        None => {},
    }
    docs
}

/// A tag document's pairs with each name in its textual form, ready for
/// serialization.
pub open spec fn spec_doc_pairs(tags: Seq<(TagName, Seq<char>)>) -> Seq<(Seq<char>, Seq<char>)> {
    tags.map_values(|p: (TagName, Seq<char>)| (tag_name_chars(p.0), p.1))
}

/// Serializes a tag document: pure and deterministic, so identical
/// documents always yield byte-identical output.
pub fn serialize_tags(doc: &TagDocument) -> (r: String)
    ensures
        r@ == spec_serialize(spec_doc_pairs(doc@)),
{
    let ghost pairs = spec_doc_pairs(doc@);
    let mut out = begin_document();
    let n = doc.tags.len();
    let mut i: usize = 0;
    proof {
        assert(pairs.take(0) =~= Seq::<(Seq<char>, Seq<char>)>::empty());
    }
    while i < n
        invariant
            i <= n,
            n == doc.tags@.len(),
            pairs == spec_doc_pairs(doc@),
            pairs.len() == n,
            out@ == xml_header() + root_open() + spec_records(pairs.take(i as int)),
        decreases n - i,
    {
        let name = tag_name_str(doc.tags[i].0);
        append_record(&mut out, name, doc.tags[i].1.as_str());
        proof {
            assert(pairs[i as int] == (tag_name_chars(doc.tags@[i as int].0), doc.tags@[i as int].1@));
            lemma_records_take_snoc(pairs, i as int);
            assert(out@ =~= xml_header() + root_open() + spec_records(pairs.take(i as int + 1)));
        }
        i = i + 1;
    }
    end_document(&mut out);
    proof {
        assert(pairs.take(n as int) =~= pairs);
        assert(out@ =~= spec_serialize(pairs));
    }
    out
}

/// One track's output: the track's title and its serialized tag document.
pub struct SongData {
    pub title: String,
    pub xml: String,
}

/// The result of processing one release: one song entry per track, plus
/// the optional album artwork URL.
pub struct AlbumData {
    pub song_data_vec: Vec<SongData>,
    pub image_url: Option<String>,
}

/// Converts a release into one serialized tag document per track, in the
/// tracklist's order, together with the artwork reference. A release
/// without a tracklist yields no documents, which is not an error.
pub fn parse_release_data(release: Release) -> (album_data: AlbumData)
    ensures
        album_data.song_data_vec@.len() == spec_tracklist(release).len(),
        forall|i: int|
            0 <= i < album_data.song_data_vec@.len() ==> {
                &&& album_data.song_data_vec@[i].title@ == spec_tracklist(release)[i].title@
                &&& album_data.song_data_vec@[i].xml@ == spec_serialize(
                    spec_doc_pairs(spec_track_tags(release, spec_tracklist(release)[i])),
                )
            },
        album_data.image_url is Some <==> spec_image_url(release) is Some,
        album_data.image_url is Some ==> album_data.image_url->0@ == spec_image_url(release)->0,
{
    let docs = track_documents(&release);
    let mut song_data_vec: Vec<SongData> = Vec::new();
    match &release.tracklist {
        Some(ts) => {
            let n = ts.len();
            let mut i: usize = 0;
            while i < n
                invariant
                    i <= n,
                    n == spec_tracklist(release).len(),
                    ts@ == spec_tracklist(release),
                    docs@.len() == n,
                    forall|j: int|
                        0 <= j < n as int ==> docs@[j]@ == spec_track_tags(
                            release,
                            spec_tracklist(release)[j],
                        ),
                    song_data_vec@.len() == i,
                    forall|j: int|
                        0 <= j < i as int ==> {
                            &&& song_data_vec@[j].title@ == spec_tracklist(release)[j].title@
                            &&& song_data_vec@[j].xml@ == spec_serialize(
                                spec_doc_pairs(spec_track_tags(release, spec_tracklist(release)[j])),
                            )
                        },
                decreases n - i,
            {
                let xml = serialize_tags(&docs[i]);
                song_data_vec.push(SongData { title: ts[i].title.clone(), xml });
                i = i + 1;
            }
        },
        None => {},
    }
    let image_url: Option<String> = match &release.images {
        Some(im) => {
            if im.len() > 0 {
                Some(im[im.len() - 1].resource_url.clone())
            } else {
                None
            }
        },
        None => None,
    };
    AlbumData { song_data_vec, image_url }
}

} // verus!
