//! Turns a music-release record into one tag document per track.
//!
//! The library parses a release identifier out of a bare number or a
//! URL-like path, strips numeric disambiguation suffixes from artist
//! names, projects a release record onto a fixed tag vocabulary, and
//! renders each track's tags as a small XML document.

mod artist;
mod ident;
mod numeral;
mod tags;
mod xml;

pub use artist::group_ends_at;
pub use artist::lemma_trim_artist_idempotent;
pub use artist::lemma_trim_artist_no_suffix;
pub use artist::spec_trim_artist;
pub use artist::trim_artist;
pub use ident::all_digits;
pub use ident::digits_val;
pub use ident::lemma_parse_release_id_invalid_forms;
pub use ident::lemma_parse_release_id_valid_forms;
pub use ident::parse_release_id;
pub use ident::spec_parse_release_id;
pub use ident::spec_parse_u32;
pub use numeral::spec_decimal;
pub use numeral::u32_to_string;
pub use tags::album_tags;
pub use tags::parse_release_data;
pub use tags::serialize_tags;
pub use tags::spec_album_tags;
pub use tags::spec_image_url;
pub use tags::spec_track_tags;
pub use tags::spec_tracklist;
pub use tags::track_documents;
pub use tags::AlbumData;
pub use tags::Release;
pub use tags::ReleaseArtist;
pub use tags::ReleaseImage;
pub use tags::ReleaseTrack;
pub use tags::SongData;
pub use tags::TagDocument;
pub use tags::TagName;
pub use xml::escape_attr;
pub use xml::lemma_escape_round_trip;
pub use xml::lemma_escape_well_formed;
pub use xml::spec_escape;
pub use xml::spec_serialize;
pub use xml::spec_unescape;
pub use xml::unescape_attr;
