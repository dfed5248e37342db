//! The compiled package: the metadata document that servers and clients read.
use vstd::prelude::*;
use crate::source::MetadataVersion;

verus! {

/// A generated key of a localized text or audio: `TITLE_<lang>`, `SUMMARY_<lang>` or
/// `PAGE_<index>_<lang>`.
pub type StringID = String;

/// Where one asset sits inside the binary blob.
#[derive(Clone, Debug)]
pub struct FilePositionInPackage {
    /// Lower-case file extension, a hint of the content type.
    pub format: String,
    /// Byte offset into the blob.
    pub start: u64,
    /// Byte count.
    pub length: u64,
}

impl View for FilePositionInPackage {
    type V = (Seq<char>, nat, nat);

    open spec fn view(&self) -> (Seq<char>, nat, nat) {
        (self.format@, self.start as nat, self.length as nat)
    }
}

/// The metadata of a compiled flipbook.
#[derive(Clone, Debug)]
pub struct FlipbookPackage {
    pub version: MetadataVersion,
    pub languages: Vec<String>,
    pub default_language: String,
    /// File name of the binary blob.
    pub binary_package_url: String,
    /// StringID to text, keys unique, in insertion order.
    pub texts: Vec<(StringID, String)>,
    /// StringID to audio position, keys unique, in insertion order.
    pub audio: Vec<(StringID, FilePositionInPackage)>,
    pub title: StringID,
    pub summary: StringID,
    /// The miniature image, base64 encoded.
    pub miniature: String,
    /// One entry per page whose background exists, in page order.
    pub images_in_pages: Vec<FilePositionInPackage>,
}

/// The text table as key and text characters.
pub open spec fn texts_view(t: Seq<(StringID, String)>) -> Seq<(Seq<char>, Seq<char>)> {
    t.map_values(|e: (StringID, String)| (e.0@, e.1@))
}

/// The audio table as key characters and positions.
pub open spec fn audio_view(t: Seq<(StringID, FilePositionInPackage)>) -> Seq<(Seq<char>, (Seq<char>, nat, nat))> {
    t.map_values(|e: (StringID, FilePositionInPackage)| (e.0@, e.1@))
}

/// The positions of a list of entries.
pub open spec fn positions_view(t: Seq<FilePositionInPackage>) -> Seq<(Seq<char>, nat, nat)> {
    t.map_values(|e: FilePositionInPackage| e@)
}

/// The keys of a table.
pub open spec fn keys_view<V>(t: Seq<(StringID, V)>) -> Seq<Seq<char>> {
    t.map_values(|e: (StringID, V)| e.0@)
}

/// No key occurs twice.
pub open spec fn distinct_keys(k: Seq<Seq<char>>) -> bool {
    forall|i: int, j: int| 0 <= i < j < k.len() ==> k[i] != k[j]
}

/// What a build produces: the metadata and the blob it addresses.
#[derive(Clone, Debug)]
pub struct Artifacts {
    pub metadata: FlipbookPackage,
    pub binary_package: Vec<u8>,
}

} // verus!
