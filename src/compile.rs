//! The builder: turns a flipbook source, and the files it references, into a package
//! (metadata and binary blob).
use vstd::prelude::*;
use base64::Engine;
use crate::files::{FileContent, FileStore, MAX_FILE_LEN, content_of, bytes_of};
use crate::package::{
    Artifacts, FilePositionInPackage, FlipbookPackage, StringID, texts_view, audio_view,
    positions_view,
};
use crate::paths::{file_name, file_name_of, format_tag, format_of};
use crate::source::{
    Asset, FlipbookSource, SourcePage, all_page_audios, all_page_texts, ordered_entries, picks,
    visit_order,
};
use crate::string_id::{
    page_id, title_id, summary_id, page_string_id, title_string_id, summary_string_id,
};

verus! {

/// Why a build fails.
#[derive(Clone, Debug)]
pub enum CompileError {
    /// A required file (the miniature, an audio, a background that exists) could not be read.
    AssetRead { path: String },
    /// A file that goes into the blob has no extension to take its format from.
    UnsupportedAsset { path: String },
}

/// How the build was invoked.
pub struct Arguments<'a> {
    pub source: &'a FlipbookSource,
    pub path_metadata: &'a str,
    pub path_binary: &'a str,
}

impl<'a> Arguments<'a> {
    fn file_name(path: &'a str) -> (r: Option<String>)
        ensures
            match r {
                Some(n) => file_name_of(path@) == Some(n@),
                None => file_name_of(path@) is None,
            },
    {
        file_name(path)
    }

    /// The file name of the binary blob, as recorded in the metadata.
    pub fn binary_file_path(&self) -> (r: Option<String>)
        ensures
            match r {
                Some(n) => file_name_of(self.path_binary@) == Some(n@),
                None => file_name_of(self.path_binary@) is None,
            },
    {
        Arguments::file_name(self.path_binary)
    }
}

/// The base64 text of some bytes (standard alphabet, padded).
pub uninterp spec fn base64_of(bytes: Seq<u8>) -> Seq<char>;

/// Relies on base64's `general_purpose::STANDARD.encode`: the text depends on the bytes
/// alone; it panics only when the encoded length overflows `usize`.
#[verifier::external_body]
fn encode_base64(bytes: &Vec<u8>) -> (r: String)
    requires
        bytes@.len() <= MAX_FILE_LEN,
    ensures
        r@ == base64_of(bytes@),
{
    base64::engine::general_purpose::STANDARD.encode(bytes)
}

/// The format recorded for an asset at `p` (empty when it has none).
pub open spec fn asset_format(p: Seq<char>) -> Seq<char> {
    match format_of(p) {
        Some(f) => f,
        None => seq![],
    }
}

/// The failure a file in the blob meets when it is read: none, or the error.
pub open spec fn packing_error(files: Seq<(String, FileContent)>, path: String, missing_ok: bool) -> Option<CompileError> {
    match content_of(files, path@) {
        FileContent::Missing => if missing_ok {
            None
        } else {
            Some(CompileError::AssetRead { path })
        },
        FileContent::Unreadable => Some(CompileError::AssetRead { path }),
        FileContent::Bytes(_) => if format_of(path@) is None {
            Some(CompileError::UnsupportedAsset { path })
        } else {
            None
        },
    }
}

/// The first failure met while packing the backgrounds of `pages`, in page order.
pub open spec fn background_error(pages: Seq<SourcePage>, files: Seq<(String, FileContent)>) -> Option<CompileError>
    decreases pages.len(),
{
    if pages.len() == 0 {
        None
    } else {
        match background_error(pages.drop_last(), files) {
            Some(e) => Some(e),
            None => packing_error(files, pages.last().background.path, true),
        }
    }
}

/// The first failure met while packing the audio files of `rows`, in order.
pub open spec fn audio_error(rows: Seq<(usize, String, String)>, files: Seq<(String, FileContent)>) -> Option<CompileError>
    decreases rows.len(),
{
    if rows.len() == 0 {
        None
    } else {
        match audio_error(rows.drop_last(), files) {
            Some(e) => Some(e),
            None => packing_error(files, rows.last().2, false),
        }
    }
}

/// `(format, bytes)` of each background that exists, in page order.
pub open spec fn background_items(pages: Seq<SourcePage>, files: Seq<(String, FileContent)>) -> Seq<(Seq<char>, Seq<u8>)>
    decreases pages.len(),
{
    if pages.len() == 0 {
        seq![]
    } else {
        let prev = background_items(pages.drop_last(), files);
        let p = pages.last().background.path@;
        if content_of(files, p) is Missing {
            prev
        } else {
            prev.push((asset_format(p), bytes_of(files, p)))
        }
    }
}

/// `(format, bytes)` of each audio file of `rows`, in order.
pub open spec fn audio_items(rows: Seq<(usize, String, String)>, files: Seq<(String, FileContent)>) -> Seq<(Seq<char>, Seq<u8>)> {
    rows.map_values(|r: (usize, String, String)| (asset_format(r.2@), bytes_of(files, r.2@)))
}

/// The bytes of the items, back to back.
pub open spec fn concat_items(items: Seq<(Seq<char>, Seq<u8>)>) -> Seq<u8>
    decreases items.len(),
{
    if items.len() == 0 {
        seq![]
    } else {
        concat_items(items.drop_last()) + items.last().1
    }
}

/// `(format, start, length)` of each item when the items are laid out back to back from
/// offset `base`.
pub open spec fn layout(items: Seq<(Seq<char>, Seq<u8>)>, base: nat) -> Seq<(Seq<char>, nat, nat)>
    decreases items.len(),
{
    if items.len() == 0 {
        seq![]
    } else {
        layout(items.drop_last(), base).push(
            (items.last().0, base + concat_items(items.drop_last()).len(), items.last().1.len()),
        )
    }
}

/// The first failure of a build, in build order: the miniature, then the backgrounds,
/// then the audio files.
pub open spec fn build_failure(src: FlipbookSource, files: Seq<(String, FileContent)>) -> Option<CompileError> {
    if !(content_of(files, src.miniature.path@) is Bytes) {
        Some(CompileError::AssetRead { path: src.miniature.path })
    } else if background_error(src.pages@, files) is Some {
        background_error(src.pages@, files)
    } else {
        audio_error(all_page_audios(src.pages@, src.languages@), files)
    }
}

/// `(StringID, text)` of each page text row.
pub open spec fn page_text_table(rows: Seq<(usize, String, String)>) -> Seq<(Seq<char>, Seq<char>)> {
    rows.map_values(|r: (usize, String, String)| (page_id(r.0 as nat, r.1@), r.2@))
}

/// `(TITLE_<lang>, text)` of each title entry.
pub open spec fn title_table(entries: Seq<(String, Asset)>) -> Seq<(Seq<char>, Seq<char>)> {
    entries.map_values(|e: (String, Asset)| (title_id(e.0@), e.1.text@))
}

/// `(SUMMARY_<lang>, text)` of each summary entry.
pub open spec fn summary_table(entries: Seq<(String, Asset)>) -> Seq<(Seq<char>, Seq<char>)> {
    entries.map_values(|e: (String, Asset)| (summary_id(e.0@), e.1.text@))
}

/// The text table of a build: page texts, then titles, then summaries, each localized
/// text in visiting order.
pub open spec fn text_table(src: FlipbookSource) -> Seq<(Seq<char>, Seq<char>)> {
    page_text_table(all_page_texts(src.pages@, src.languages@)) + title_table(
        ordered_entries(src.title.0@, src.languages@),
    ) + summary_table(ordered_entries(src.summary.0@, src.languages@))
}

/// The blob of a build: the existing backgrounds, then the audio files.
pub open spec fn blob_of(src: FlipbookSource, files: Seq<(String, FileContent)>) -> Seq<u8> {
    concat_items(background_items(src.pages@, files)) + concat_items(
        audio_items(all_page_audios(src.pages@, src.languages@), files),
    )
}

/// The audio table of a build: each page audio under its StringID, placed after the
/// backgrounds.
pub open spec fn audio_table(src: FlipbookSource, files: Seq<(String, FileContent)>) -> Seq<(Seq<char>, (Seq<char>, nat, nat))> {
    let rows = all_page_audios(src.pages@, src.languages@);
    let pos = layout(audio_items(rows, files), concat_items(background_items(src.pages@, files)).len());
    Seq::new(rows.len(), |i: int| (page_id(rows[i].0 as nat, rows[i].1@), pos[i]))
}

/// `a` is what a build of `src` writing its blob to `path_binary` produces.
pub open spec fn builds(src: FlipbookSource, path_binary: Seq<char>, files: Seq<(String, FileContent)>, a: Artifacts) -> bool {
    let m = a.metadata;
    &&& m.version == src.version
    &&& m.languages@ == src.languages@
    &&& m.default_language == src.default_language
    &&& file_name_of(path_binary) == Some(m.binary_package_url@)
    &&& texts_view(m.texts@) == text_table(src)
    &&& audio_view(m.audio@) == audio_table(src, files)
    &&& m.title@ == title_id(src.default_language@)
    &&& m.summary@ == summary_id(src.default_language@)
    &&& m.miniature@ == base64_of(bytes_of(files, src.miniature.path@))
    &&& positions_view(m.images_in_pages@) == layout(background_items(src.pages@, files), 0)
    &&& a.binary_package@ == blob_of(src, files)
}

pub proof fn lemma_layout_len(items: Seq<(Seq<char>, Seq<u8>)>, base: nat)
    ensures
        layout(items, base).len() == items.len(),
    decreases items.len(),
{
    if items.len() > 0 {
        lemma_layout_len(items.drop_last(), base);
    }
}

pub proof fn lemma_background_error_prefix(pages: Seq<SourcePage>, files: Seq<(String, FileContent)>, i: int)
    requires
        0 <= i <= pages.len(),
        background_error(pages.take(i), files) is Some,
    ensures
        background_error(pages, files) == background_error(pages.take(i), files),
    decreases pages.len() - i,
{
    if i < pages.len() {
        assert(pages.drop_last().take(i) =~= pages.take(i));
        lemma_background_error_prefix(pages.drop_last(), files, i);
    } else {
        assert(pages.take(i) =~= pages);
    }
}

pub proof fn lemma_audio_error_prefix(rows: Seq<(usize, String, String)>, files: Seq<(String, FileContent)>, i: int)
    requires
        0 <= i <= rows.len(),
        audio_error(rows.take(i), files) is Some,
    ensures
        audio_error(rows, files) == audio_error(rows.take(i), files),
    decreases rows.len() - i,
{
    if i < rows.len() {
        assert(rows.drop_last().take(i) =~= rows.take(i));
        lemma_audio_error_prefix(rows.drop_last(), files, i);
    } else {
        assert(rows.take(i) =~= rows);
    }
}

/// Appends `bytes` to `blob`.
fn append_bytes(blob: &mut Vec<u8>, bytes: &Vec<u8>)
    ensures
        final(blob)@ == old(blob)@ + bytes@,
{
    let mut i: usize = 0;
    while i < bytes.len()
        invariant
            i <= bytes@.len(),
            blob@ == old(blob)@ + bytes@.take(i as int),
        decreases bytes@.len() - i,
    {
        blob.push(bytes[i]);
        assert(bytes@.take(i + 1) =~= bytes@.take(i as int).push(bytes@[i as int]));
        i = i + 1;
    }
    assert(bytes@.take(i as int) =~= bytes@);
}

/// Appends the file `bytes` of `path` to the blob and says where it went.
fn append_file_to_binary_package(binary_package: &mut Vec<u8>, path: &String, bytes: &Vec<u8>) -> (r: Result<FilePositionInPackage, CompileError>)
    ensures
        match r {
            Ok(fip) => format_of(path@) == Some(fip.format@)
                && fip.start as nat == old(binary_package)@.len()
                && fip.length as nat == bytes@.len()
                && final(binary_package)@ == old(binary_package)@ + bytes@,
            Err(e) => format_of(path@) is None && e == CompileError::UnsupportedAsset { path: *path }
                && final(binary_package)@ == old(binary_package)@,
        },
{
    match format_tag(path.as_str()) {
        None => Err(CompileError::UnsupportedAsset { path: path.clone() }),
        Some(f) => {
            let fip = FilePositionInPackage {
                format: f,
                start: binary_package.len() as u64,
                length: bytes.len() as u64,
            };
            append_bytes(binary_package, bytes);
            Ok(fip)
        },
    }
}

/// Packs the background of every page whose background exists, in page order.
fn construct_background_images(pages: &Vec<SourcePage>, files: &FileStore) -> (r: Result<(Vec<FilePositionInPackage>, Vec<u8>), CompileError>)
    ensures
        match r {
            Ok((images, blob)) => background_error(pages@, files.entries@) is None
                && positions_view(images@) == layout(background_items(pages@, files.entries@), 0)
                && blob@ == concat_items(background_items(pages@, files.entries@)),
            Err(e) => background_error(pages@, files.entries@) == Some(e),
        },
{
    let ghost fs = files.entries@;
    let mut images: Vec<FilePositionInPackage> = Vec::new();
    let mut blob: Vec<u8> = Vec::new();
    let mut i: usize = 0;
    while i < pages.len()
        invariant
            i <= pages@.len(),
            fs == files.entries@,
            background_error(pages@.take(i as int), fs) is None,
            positions_view(images@) == layout(background_items(pages@.take(i as int), fs), 0),
            blob@ == concat_items(background_items(pages@.take(i as int), fs)),
        decreases pages@.len() - i,
    {
        let ghost prefix = pages@.take(i + 1);
        assert(prefix.drop_last() =~= pages@.take(i as int));
        assert(prefix.last() == pages@[i as int]);
        let path = &pages[i].background.path;
        match files.lookup(path) {
            None => {},
            Some(k) => {
                match &files.entries[k].1 {
                    FileContent::Missing => {},
                    FileContent::Unreadable => {
                        proof {
                            lemma_background_error_prefix(pages@, fs, i + 1);
                        }
                        return Err(CompileError::AssetRead { path: path.clone() });
                    },
                    FileContent::Bytes(bytes) => {
                        let ghost before = images@;
                        let ghost blob_before = blob@;
                        let ghost prev_items = background_items(pages@.take(i as int), fs);
                        match append_file_to_binary_package(&mut blob, path, bytes) {
                            Err(e) => {
                                proof {
                                    lemma_background_error_prefix(pages@, fs, i + 1);
                                }
                                return Err(e);
                            },
                            Ok(fip) => {
                                images.push(fip);
                                assert(positions_view(images@) =~= positions_view(before).push(fip@));
                                assert(background_items(prefix, fs) == prev_items.push(
                                    (fip.format@, bytes@),
                                ));
                                let ghost items = background_items(prefix, fs);
                                assert(items.drop_last() =~= prev_items);
                                assert(concat_items(items) == concat_items(prev_items) + bytes@);
                                assert(blob@ == concat_items(items));
                                assert(layout(items, 0) == layout(prev_items, 0).push(
                                    (fip.format@, 0 + concat_items(prev_items).len(), bytes@.len()),
                                ));
                            },
                        }
                    },
                }
            },
        }
        i = i + 1;
    }
    assert(pages@.take(i as int) =~= pages@);
    Ok((images, blob))
}

/// Packs the audio file of every row, in order, after what the blob holds, and records
/// each under its page StringID.
fn construct_audio_db(rows: &Vec<(usize, String, String)>, files: &FileStore, binary_package: &mut Vec<u8>) -> (r: Result<Vec<(StringID, FilePositionInPackage)>, CompileError>)
    ensures
        match r {
            Ok(table) => audio_error(rows@, files.entries@) is None
                && final(binary_package)@ == old(binary_package)@ + concat_items(audio_items(rows@, files.entries@))
                && table@.len() == rows@.len()
                && forall|k: int| 0 <= k < rows@.len() ==> (#[trigger] table@[k]).0@ == page_id(
                    rows@[k].0 as nat,
                    rows@[k].1@,
                ) && table@[k].1@ == layout(audio_items(rows@, files.entries@), old(binary_package)@.len())[k],
            Err(e) => audio_error(rows@, files.entries@) == Some(e),
        },
{
    let ghost fs = files.entries@;
    let ghost base = binary_package@.len();
    let mut table: Vec<(StringID, FilePositionInPackage)> = Vec::new();
    let mut i: usize = 0;
    while i < rows.len()
        invariant
            i <= rows@.len(),
            fs == files.entries@,
            base == old(binary_package)@.len(),
            audio_error(rows@.take(i as int), fs) is None,
            binary_package@ == old(binary_package)@ + concat_items(audio_items(rows@.take(i as int), fs)),
            table@.len() == i,
            forall|k: int| 0 <= k < i ==> (#[trigger] table@[k]).0@ == page_id(rows@[k].0 as nat, rows@[k].1@)
                && table@[k].1@ == layout(audio_items(rows@.take(i as int), fs), base)[k],
        decreases rows@.len() - i,
    {
        let ghost prefix = rows@.take(i + 1);
        assert(prefix.drop_last() =~= rows@.take(i as int));
        assert(prefix.last() == rows@[i as int]);
        assert(audio_items(prefix, fs).drop_last() =~= audio_items(rows@.take(i as int), fs));
        let row = &rows[i];
        let path = &row.2;
        match files.lookup(path) {
            None => {
                proof {
                    lemma_audio_error_prefix(rows@, fs, i + 1);
                }
                return Err(CompileError::AssetRead { path: path.clone() });
            },
            Some(k) => {
                match &files.entries[k].1 {
                    FileContent::Bytes(bytes) => {
                        let ghost before = table@;
                        let ghost blob_before = binary_package@;
                        match append_file_to_binary_package(binary_package, path, bytes) {
                            Err(e) => {
                                proof {
                                    lemma_audio_error_prefix(rows@, fs, i + 1);
                                }
                                return Err(e);
                            },
                            Ok(fip) => {
                                let id = page_string_id(row.0, row.1.as_str());
                                table.push((id, fip));
                                proof {
                                    let items = audio_items(prefix, fs);
                                    let prev_items = audio_items(rows@.take(i as int), fs);
                                    assert(items.last() == (fip.format@, bytes@));
                                    assert(concat_items(items) == concat_items(prev_items) + bytes@);
                                    lemma_layout_len(prev_items, base);
                                    lemma_layout_len(items, base);
                                    assert(layout(items, base) == layout(prev_items, base).push(
                                        (fip.format@, base + concat_items(prev_items).len(), bytes@.len()),
                                    ));
                                    assert(fip@ == layout(items, base)[i as int]);
                                }
                                assert forall|m: int| 0 <= m < i + 1 implies (#[trigger] table@[m]).0@ == page_id(
                                    rows@[m].0 as nat,
                                    rows@[m].1@,
                                ) && table@[m].1@ == layout(audio_items(prefix, fs), base)[m] by {
                                    if m < i {
                                        assert(table@[m] == before[m]);
                                    }
                                }
                            },
                        }
                    },
                    _ => {
                        proof {
                            lemma_audio_error_prefix(rows@, fs, i + 1);
                        }
                        return Err(CompileError::AssetRead { path: path.clone() });
                    },
                }
            },
        }
        i = i + 1;
    }
    assert(rows@.take(i as int) =~= rows@);
    Ok(table)
}

/// Appends the titles (or, with `summary`, the summaries) of `entries` in visiting order.
fn insert_localized(tdb: &mut Vec<(StringID, String)>, entries: &Vec<(String, Asset)>, langs: &Vec<String>, summary: bool)
    ensures
        summary ==> texts_view(final(tdb)@) == texts_view(old(tdb)@) + summary_table(
            ordered_entries(entries@, langs@),
        ),
        !summary ==> texts_view(final(tdb)@) == texts_view(old(tdb)@) + title_table(
            ordered_entries(entries@, langs@),
        ),
{
    let order = visit_order(entries, langs);
    let ghost ordered = ordered_entries(entries@, langs@);
    let ghost base = texts_view(tdb@);
    let mut k: usize = 0;
    while k < order.len()
        invariant
            k <= order@.len(),
            picks(entries@, order@, ordered),
            base == texts_view(old(tdb)@),
            summary ==> texts_view(tdb@) == base + summary_table(ordered.take(k as int)),
            !summary ==> texts_view(tdb@) == base + title_table(ordered.take(k as int)),
        decreases order@.len() - k,
    {
        let e = &entries[order[k]];
        let ghost before = tdb@;
        let id = if summary {
            summary_string_id(e.0.as_str())
        } else {
            title_string_id(e.0.as_str())
        };
        tdb.push((id, e.1.text.clone()));
        assert(texts_view(tdb@) =~= texts_view(before).push((id@, e.1.text@)));
        assert(summary_table(ordered.take(k + 1)) =~= summary_table(ordered.take(k as int)).push(
            (summary_id(e.0@), e.1.text@),
        ));
        assert(title_table(ordered.take(k + 1)) =~= title_table(ordered.take(k as int)).push(
            (title_id(e.0@), e.1.text@),
        ));
        k = k + 1;
    }
    assert(ordered.take(k as int) =~= ordered);
}

/// Gathers every text of the source under its StringID: page texts, then titles, then
/// summaries.
fn construct_text_db(source: &FlipbookSource) -> (r: Vec<(StringID, String)>)
    ensures
        texts_view(r@) == text_table(*source),
{
    let rows = source.pages_text();
    let mut tdb: Vec<(StringID, String)> = Vec::new();
    let mut i: usize = 0;
    while i < rows.len()
        invariant
            i <= rows@.len(),
            texts_view(tdb@) == page_text_table(rows@.take(i as int)),
        decreases rows@.len() - i,
    {
        let row = &rows[i];
        let ghost before = tdb@;
        let id = page_string_id(row.0, row.1.as_str());
        tdb.push((id, row.2.clone()));
        assert(texts_view(tdb@) =~= texts_view(before).push((id@, row.2@)));
        assert(page_text_table(rows@.take(i + 1)) =~= page_text_table(rows@.take(i as int)).push(
            (page_id(row.0 as nat, row.1@), row.2@),
        ));
        i = i + 1;
    }
    assert(rows@.take(i as int) =~= rows@);
    insert_localized(&mut tdb, &source.title.0, &source.languages, false);
    insert_localized(&mut tdb, &source.summary.0, &source.languages, true);
    tdb
}

/// A copy of a list of strings.
fn copy_strings(s: &Vec<String>) -> (r: Vec<String>)
    ensures
        r@ == s@,
{
    let mut r: Vec<String> = Vec::new();
    let mut i: usize = 0;
    while i < s.len()
        invariant
            i <= s@.len(),
            r@ == s@.take(i as int),
        decreases s@.len() - i,
    {
        r.push(s[i].clone());
        assert(s@.take(i + 1) =~= s@.take(i as int).push(s@[i as int]));
        i = i + 1;
    }
    assert(s@.take(i as int) =~= s@);
    r
}

/// Builds the package of `args.source` out of the files in `files`, in build order: the
/// miniature, the existing backgrounds page by page, then the page audio files.
pub fn build(args: &Arguments, files: &FileStore) -> (r: Result<Artifacts, CompileError>)
    requires
        args.source.wf(),
        files.wf(),
        file_name_of(args.path_binary@) is Some,
    ensures
        match r {
            Ok(a) => build_failure(*args.source, files.entries@) is None && builds(
                *args.source,
                args.path_binary@,
                files.entries@,
                a,
            ),
            Err(e) => build_failure(*args.source, files.entries@) == Some(e),
        },
{
    let source = args.source;
    let miniature = match files.lookup(&source.miniature.path) {
        Some(k) => match &files.entries[k].1 {
            FileContent::Bytes(bytes) => {
                assert(bytes@.len() <= MAX_FILE_LEN) by {
                    assert(files.entries@[k as int].1 == FileContent::Bytes(*bytes));
                }
                encode_base64(bytes)
            },
            _ => {
                return Err(CompileError::AssetRead { path: source.miniature.path.clone() });
            },
        },
        None => {
            return Err(CompileError::AssetRead { path: source.miniature.path.clone() });
        },
    };
    let (images_in_pages, mut binary_package) = match construct_background_images(&source.pages, files) {
        Ok(pair) => pair,
        Err(e) => {
            return Err(e);
        },
    };
    let rows = source.pages_audios();
    let ghost background_len = binary_package@.len();
    let audio = match construct_audio_db(&rows, files, &mut binary_package) {
        Ok(table) => table,
        Err(e) => {
            return Err(e);
        },
    };
    let texts = construct_text_db(source);
    let metadata = FlipbookPackage {
        version: source.version,
        languages: copy_strings(&source.languages),
        default_language: source.default_language.clone(),
        binary_package_url: args.binary_file_path().unwrap(),
        texts,
        audio,
        title: title_string_id(source.default_language.as_str()),
        summary: summary_string_id(source.default_language.as_str()),
        miniature,
        images_in_pages,
    };
    proof {
        let items = audio_items(rows@, files.entries@);
        lemma_layout_len(items, background_len);
        assert(audio_view(metadata.audio@) =~= audio_table(*source, files.entries@));
    }
    Ok(Artifacts { metadata, binary_package })
}

/// Compiles `source` into its package: the metadata, whose blob is recorded under the
/// file name of `path_binary`, and the blob itself. `files` holds what was found at the
/// paths the source references.
pub fn compile(source: &FlipbookSource, path_metadata: &str, path_binary: &str, files: &FileStore) -> (r: Result<Artifacts, CompileError>)
    requires
        source.wf(),
        files.wf(),
        file_name_of(path_binary@) is Some,
    ensures
        match r {
            Ok(a) => build_failure(*source, files.entries@) is None && builds(
                *source,
                path_binary@,
                files.entries@,
                a,
            ),
            Err(e) => build_failure(*source, files.entries@) == Some(e),
        },
{
    let args = Arguments { source, path_metadata, path_binary };
    build(&args, files)
}

} // verus!
