//! The catalog of generated assets (images, localized lines with their speech) from which
//! mock flipbook sources are drawn.
use vstd::prelude::*;
use vstd::string::*;
use rand::seq::IteratorRandom;
use crate::mock_args::{Language, PageRange, all_languages, language_name};
use crate::paths::{extension, extension_of, file_name, file_name_of, file_stem, stem_of};
use crate::source::{Asset, Audio, FlipbookSource, Image, PageText, SourcePage};

verus! {

/// Extension of the generated images.
pub const IMAGES_EXT: &'static str = "png";

/// Extension of the generated speech.
pub const SPEECH_EXT: &'static str = "ogg";

/// One generated line: its text and, when speech was generated for it, the audio file.
#[derive(Clone, Debug)]
pub struct Line {
    pub text: String,
    pub tts: Option<String>,
}

impl Line {
    /// A copy of the line.
    pub fn duplicate(&self) -> (r: Line)
        ensures
            r == *self,
    {
        Line {
            text: self.text.clone(),
            tts: match &self.tts {
                Some(p) => Some(p.clone()),
                None => None,
            },
        }
    }
}

/// Every translated version of the same line.
pub type LocLine = Vec<(Language, Line)>;

/// Why a catalog could not be made.
#[derive(Clone, Copy, Debug, PartialEq, Eq, Structural)]
pub enum CatalogError {
    /// No language had lines.
    NoLines,
}

#[derive(Clone, Debug)]
pub struct MockCatalog {
    pub images: Vec<String>,
    pub localized_lines: Vec<LocLine>,
}

/// Index of the last entry of `s` under key `k`, or -1.
pub open spec fn key_index<V>(s: Seq<(String, V)>, k: Seq<char>) -> int
    decreases s.len(),
{
    if s.len() == 0 {
        -1
    } else if s.last().0@ == k {
        s.len() - 1
    } else {
        key_index(s.drop_last(), k)
    }
}

pub proof fn lemma_key_index_bounds<V>(s: Seq<(String, V)>, k: Seq<char>)
    ensures
        -1 <= key_index(s, k) < s.len(),
        key_index(s, k) >= 0 ==> s[key_index(s, k)].0@ == k,
    decreases s.len(),
{
    if s.len() > 0 && s.last().0@ != k {
        lemma_key_index_bounds(s.drop_last(), k);
    }
}

pub proof fn lemma_images_have_extension(listing: Seq<String>)
    ensures
        forall|k: int| 0 <= k < images_among(listing).len() ==> extension_of(
            (#[trigger] images_among(listing)[k])@,
        ) == Some(IMAGES_EXT@),
    decreases listing.len(),
{
    if listing.len() > 0 {
        lemma_images_have_extension(listing.drop_last());
        let prev = images_among(listing.drop_last());
        let cur = images_among(listing);
        assert forall|k: int| 0 <= k < cur.len() implies extension_of((#[trigger] cur[k])@) == Some(IMAGES_EXT@) by {
            if k < prev.len() {
                assert(cur[k] == prev[k]);
            }
        }
    }
}

/// The paths of `listing` that are generated images, in listing order.
pub open spec fn images_among(listing: Seq<String>) -> Seq<String>
    decreases listing.len(),
{
    if listing.len() == 0 {
        seq![]
    } else {
        let prev = images_among(listing.drop_last());
        if extension_of(listing.last()@) == Some(IMAGES_EXT@) {
            prev.push(listing.last())
        } else {
            prev
        }
    }
}

/// The versions of line `sid` in the languages of `others`, in their order.
pub open spec fn versions_of(others: Seq<(Language, Seq<(String, Line)>)>, sid: Seq<char>) -> Seq<(Language, Line)>
    decreases others.len(),
{
    if others.len() == 0 {
        seq![]
    } else {
        let prev = versions_of(others.drop_last(), sid);
        let lines = others.last().1;
        let i = key_index(lines, sid);
        if i >= 0 {
            prev.push((others.last().0, lines[i].1))
        } else {
            prev
        }
    }
}

/// `s` with every occurrence of `pat`, found from the left, removed.
pub open spec fn remove_all(s: Seq<char>, pat: Seq<char>) -> Seq<char>
    decreases s.len(),
{
    if pat.len() == 0 || s.len() < pat.len() {
        s
    } else if s.take(pat.len() as int) == pat {
        remove_all(s.skip(pat.len() as int), pat)
    } else {
        seq![s[0]] + remove_all(s.skip(1), pat)
    }
}

/// Relies on str::replace with an empty replacement: the occurrences of `pat` are found
/// from the left without overlap and removed.
#[verifier::external_body]
fn remove_occurrences(s: &str, pat: &str) -> (r: String)
    ensures
        r@ == remove_all(s@, pat@),
{
    s.replace(pat, "")
}

/// Relies on rand's `IteratorRandom::choose` over `0..n` with the thread-local generator:
/// none if and only if the range is empty, else one of its numbers.
#[verifier::external_body]
fn choose_below(n: usize) -> (r: Option<usize>)
    ensures
        r is None <==> n == 0,
        r matches Some(i) ==> i < n,
{
    (0..n).choose(&mut rand::thread_rng())
}

/// The file name of `p` without its extension.
pub fn file_stem_as_str(p: &str) -> (r: Option<String>)
    ensures
        match r {
            Some(s) => stem_of(p@) == Some(s@),
            None => stem_of(p@) is None,
        },
{
    file_stem(p)
}

/// The line id in a file name such as `Spanish_007.json`: its stem without the language
/// prefix.
pub fn get_fake_string_id(p: &str, lang_prefix: &str) -> (r: Option<String>)
    ensures
        match r {
            Some(s) => stem_of(p@) matches Some(st) && s@ == remove_all(st, lang_prefix@),
            None => stem_of(p@) is None,
        },
{
    match file_stem_as_str(p) {
        Some(st) => Some(remove_occurrences(st.as_str(), lang_prefix)),
        None => None,
    }
}

/// `s` begins with `prefix`.
pub open spec fn starts_with(s: Seq<char>, prefix: Seq<char>) -> bool {
    prefix.len() <= s.len() && s.take(prefix.len() as int) == prefix
}

/// The file at `p` has extension `ext` and a name that begins with `prefix`.
pub open spec fn is_loc_file(p: Seq<char>, prefix: Seq<char>, ext: Seq<char>) -> bool {
    extension_of(p) == Some(ext) && match file_name_of(p) {
        Some(n) => starts_with(n, prefix),
        None => false,
    }
}

/// Whether the file at `p` has extension `ext` and a name that begins with `lang_prefix`.
pub fn match_loc_name_ext(p: &str, lang_prefix: &str, ext: &str) -> (r: bool)
    ensures
        r == is_loc_file(p@, lang_prefix@, ext@),
{
    match extension(p) {
        None => false,
        Some(e) => {
            if e != String::from_str(ext) {
                return false;
            }
            match file_name(p) {
                None => false,
                Some(name) => {
                    let k = lang_prefix.unicode_len();
                    let n = name.as_str().unicode_len();
                    if k > n {
                        return false;
                    }
                    let head = String::from_str(name.as_str().substring_char(0, k));
                    head == String::from_str(lang_prefix)
                },
            }
        },
    }
}

/// The line id of the file at `p` for language prefix `prefix`.
pub open spec fn fake_sid(p: Seq<char>, prefix: Seq<char>) -> Option<Seq<char>> {
    match stem_of(p) {
        Some(st) => Some(remove_all(st, prefix)),
        None => None,
    }
}

/// The last speech file of `speech` whose line id is `sid`, if any.
pub open spec fn speech_for(speech: Seq<String>, prefix: Seq<char>, sid: Seq<char>) -> Option<String>
    decreases speech.len(),
{
    if speech.len() == 0 {
        None
    } else if is_loc_file(speech.last()@, prefix, SPEECH_EXT@) && fake_sid(speech.last()@, prefix) == Some(sid) {
        Some(speech.last())
    } else {
        speech_for(speech.drop_last(), prefix, sid)
    }
}

/// The lines of one language out of its text files `(path, text)`, in order: each text
/// under its line id, with the speech file of the same id.
pub open spec fn lines_of_language(texts: Seq<(String, String)>, speech: Seq<String>, prefix: Seq<char>) -> Seq<(Seq<char>, Line)>
    decreases texts.len(),
{
    if texts.len() == 0 {
        seq![]
    } else {
        let prev = lines_of_language(texts.drop_last(), speech, prefix);
        match fake_sid(texts.last().0@, prefix) {
            Some(sid) => prev.push((sid, Line { text: texts.last().1, tts: speech_for(speech, prefix, sid) })),
            None => prev,
        }
    }
}

/// Position of the line `sid` among `lines`.
fn find_line(lines: &Vec<(String, Line)>, sid: &String) -> (r: Option<usize>)
    ensures
        match r {
            Some(i) => i as int == key_index(lines@, sid@),
            None => key_index(lines@, sid@) == -1,
        },
{
    let mut i: usize = lines.len();
    assert(lines@.take(i as int) =~= lines@);
    while i > 0
        invariant
            i <= lines@.len(),
            key_index(lines@, sid@) == key_index(lines@.take(i as int), sid@),
        decreases i,
    {
        assert(lines@.take(i as int).drop_last() =~= lines@.take(i - 1));
        if lines[i - 1].0 == *sid {
            return Some(i - 1);
        }
        i = i - 1;
    }
    None
}

/// `out` joins the lines of `per_language` by line id, led by the last language.
pub open spec fn joined(per_language: Seq<(Language, Vec<(String, Line)>)>, out: Seq<LocLine>) -> bool {
    let main = per_language.last();
    let others = per_language.drop_last().map_values(|p: (Language, Vec<(String, Line)>)| (p.0, p.1@));
    &&& out.len() == main.1@.len()
    &&& forall|k: int| 0 <= k < out.len() ==> (#[trigger] out[k])@ == seq![(main.0, main.1@[k].1)]
        + versions_of(others, main.1@[k].0@)
}

impl MockCatalog {
    /// The generated images of a directory listing, in listing order.
    pub fn gather_images(listing: &Vec<String>) -> (r: Vec<String>)
        ensures
            r@ == images_among(listing@),
    {
        let wanted = String::from_str(IMAGES_EXT);
        let mut r: Vec<String> = Vec::new();
        let mut i: usize = 0;
        while i < listing.len()
            invariant
                i <= listing@.len(),
                wanted@ == IMAGES_EXT@,
                r@ == images_among(listing@.take(i as int)),
            decreases listing@.len() - i,
        {
            assert(listing@.take(i + 1).drop_last() =~= listing@.take(i as int));
            let keep = match extension(listing[i].as_str()) {
                Some(e) => e == wanted,
                None => false,
            };
            if keep {
                r.push(listing[i].clone());
            }
            i = i + 1;
        }
        assert(listing@.take(i as int) =~= listing@);
        r
    }

    /// The speech file of `speech_listing` for line `sid` of the language with prefix `prefix`.
    fn find_speech(speech_listing: &Vec<String>, prefix: &str, sid: &String) -> (r: Option<String>)
        ensures
            r == speech_for(speech_listing@, prefix@, sid@),
    {
        let ext = String::from_str(SPEECH_EXT);
        let mut i: usize = speech_listing.len();
        assert(speech_listing@.take(i as int) =~= speech_listing@);
        while i > 0
            invariant
                i <= speech_listing@.len(),
                ext@ == SPEECH_EXT@,
                speech_for(speech_listing@, prefix@, sid@) == speech_for(
                    speech_listing@.take(i as int),
                    prefix@,
                    sid@,
                ),
            decreases i,
        {
            let ghost prefix_seq = speech_listing@.take(i as int);
            assert(prefix_seq.drop_last() =~= speech_listing@.take(i - 1));
            let p = &speech_listing[i - 1];
            if match_loc_name_ext(p.as_str(), prefix, ext.as_str()) {
                match get_fake_string_id(p.as_str(), prefix) {
                    Some(found) => if found == *sid {
                        return Some(p.clone());
                    },
                    None => {},
                }
            }
            i = i - 1;
        }
        None
    }

    /// The lines of `lang`: each of its text files `(path, text)`, in order, under its line
    /// id, with the speech file of `speech_listing` of the same id.
    pub fn gather_loc_lines_lang(lang: Language, speech_listing: &Vec<String>, text_files: &Vec<(String, String)>) -> (r: Vec<(String, Line)>)
        ensures
            r@.map_values(|e: (String, Line)| (e.0@, e.1)) == lines_of_language(
                text_files@,
                speech_listing@,
                language_name(lang),
            ),
    {
        let prefix = lang.name();
        let mut out: Vec<(String, Line)> = Vec::new();
        let mut k: usize = 0;
        while k < text_files.len()
            invariant
                k <= text_files@.len(),
                prefix@ == language_name(lang),
                out@.map_values(|e: (String, Line)| (e.0@, e.1)) == lines_of_language(
                    text_files@.take(k as int),
                    speech_listing@,
                    prefix@,
                ),
            decreases text_files@.len() - k,
        {
            let ghost before = out@;
            assert(text_files@.take(k + 1).drop_last() =~= text_files@.take(k as int));
            let (path, text) = (&text_files[k].0, &text_files[k].1);
            match get_fake_string_id(path.as_str(), prefix.as_str()) {
                Some(sid) => {
                    let tts = MockCatalog::find_speech(speech_listing, prefix.as_str(), &sid);
                    out.push((sid, Line { text: text.clone(), tts }));
                    assert(out@.map_values(|e: (String, Line)| (e.0@, e.1)) =~= before.map_values(
                        |e: (String, Line)| (e.0@, e.1),
                    ).push((sid@, Line { text: *text, tts })));
                },
                None => {},
            }
            k = k + 1;
        }
        assert(text_files@.take(k as int) =~= text_files@);
        out
    }

    /// Joins the lines of each language by line id. The last language leads: each of its
    /// lines, in order, gives one localized line, made of that line and the versions of the
    /// same id in the other languages, in their order.
    pub fn gather_loc_lines(per_language: Vec<(Language, Vec<(String, Line)>)>) -> (r: Result<Vec<LocLine>, CatalogError>)
        ensures
            per_language@.len() == 0 ==> r == Err::<Vec<LocLine>, CatalogError>(CatalogError::NoLines),
            per_language@.len() > 0 ==> (r matches Ok(out) && joined(per_language@, out@)),
    {
        let mut all = per_language;
        let ghost given = all@;
        let (main_lang, main_lines) = match all.pop() {
            Some(p) => p,
            None => {
                return Err(CatalogError::NoLines);
            },
        };
        let ghost others = all@.map_values(|p: (Language, Vec<(String, Line)>)| (p.0, p.1@));
        assert(all@ =~= given.drop_last());
        let mut output: Vec<LocLine> = Vec::new();
        let mut k: usize = 0;
        while k < main_lines.len()
            invariant
                k <= main_lines@.len(),
                others == all@.map_values(|p: (Language, Vec<(String, Line)>)| (p.0, p.1@)),
                output@.len() == k,
                forall|m: int| 0 <= m < k ==> (#[trigger] output@[m])@ == seq![
                    (main_lang, main_lines@[m].1),
                ] + versions_of(others, main_lines@[m].0@),
            decreases main_lines@.len() - k,
        {
            let sid = &main_lines[k].0;
            let mut current: LocLine = Vec::new();
            current.push((main_lang, main_lines[k].1.duplicate()));
            let mut j: usize = 0;
            while j < all.len()
                invariant
                    j <= all@.len(),
                    k < main_lines@.len(),
                    sid@ == main_lines@[k as int].0@,
                    others == all@.map_values(|p: (Language, Vec<(String, Line)>)| (p.0, p.1@)),
                    current@ == seq![(main_lang, main_lines@[k as int].1)] + versions_of(
                        others.take(j as int),
                        sid@,
                    ),
                decreases all@.len() - j,
            {
                let ghost before = current@;
                assert(others.take(j + 1).drop_last() =~= others.take(j as int));
                assert(others.take(j + 1).last() == (all@[j as int].0, all@[j as int].1@));
                match find_line(&all[j].1, sid) {
                    Some(i) => {
                        proof {
                            lemma_key_index_bounds(all@[j as int].1@, sid@);
                        }
                        current.push((all[j].0, all[j].1[i].1.duplicate()));
                        assert(current@ =~= seq![(main_lang, main_lines@[k as int].1)] + versions_of(
                            others.take(j + 1),
                            sid@,
                        ));
                    },
                    None => {},
                }
                j = j + 1;
            }
            assert(others.take(j as int) =~= others);
            output.push(current);
            k = k + 1;
        }
        Ok(output)
    }
}

/// The texts of a localized line, keyed by language name, with the speech as audio.
pub open spec fn loc_line_entry(e: (Language, Line)) -> Asset {
    Asset {
        text: e.1.text,
        audio: match e.1.tts {
            Some(p) => Some(Audio { path: p }),
            None => None,
        },
    }
}

/// `pt` holds the versions of `line`, in order, under their language names.
pub open spec fn is_page_text_of(pt: PageText, line: Seq<(Language, Line)>) -> bool {
    &&& pt.0@.len() == line.len()
    &&& forall|k: int| 0 <= k < line.len() ==> (#[trigger] pt.0@[k]).0@ == language_name(line[k].0)
        && pt.0@[k].1 == loc_line_entry(line[k])
}

/// `pt` is the page text of one of the catalog's lines.
pub open spec fn is_catalog_text(pt: PageText, lines: Seq<LocLine>) -> bool {
    exists|k: int| 0 <= k < lines.len() && is_page_text_of(pt, (#[trigger] lines[k])@)
}

/// The page has a text, one of the catalog's lines.
pub open spec fn has_catalog_text(page: SourcePage, lines: Seq<LocLine>) -> bool {
    match page.text {
        Some(pt) => is_catalog_text(pt, lines),
        None => false,
    }
}

/// The page text made of a localized line, one entry per version, in order.
pub fn page_text_of(line: &LocLine) -> (r: PageText)
    ensures
        is_page_text_of(r, line@),
{
    let mut entries: Vec<(String, Asset)> = Vec::new();
    let mut k: usize = 0;
    while k < line.len()
        invariant
            k <= line@.len(),
            entries@.len() == k,
            forall|m: int| 0 <= m < k ==> (#[trigger] entries@[m]).0@ == language_name(line@[m].0)
                && entries@[m].1 == loc_line_entry(line@[m]),
        decreases line@.len() - k,
    {
        let v = &line[k].1;
        let asset = Asset {
            text: v.text.clone(),
            audio: match &v.tts {
                Some(p) => Some(Audio { path: p.clone() }),
                None => None,
            },
        };
        entries.push((line[k].0.name(), asset));
        k = k + 1;
    }
    PageText(entries)
}

impl MockCatalog {
    /// A catalog of the images of `image_listing` and of the lines of each language.
    pub fn new(image_listing: &Vec<String>, lines_per_language: Vec<(Language, Vec<(String, Line)>)>) -> (r: Result<MockCatalog, CatalogError>)
        ensures
            lines_per_language@.len() == 0 <==> r is Err,
            r matches Ok(c) ==> c.images@ == images_among(image_listing@) && joined(
                lines_per_language@,
                c.localized_lines@,
            ),
    {
        let images = MockCatalog::gather_images(image_listing);
        match MockCatalog::gather_loc_lines(lines_per_language) {
            Ok(localized_lines) => Ok(MockCatalog { images, localized_lines }),
            Err(e) => Err(e),
        }
    }

    /// The metadata version of the sources this catalog makes.
    pub fn get_metadata_version(&self) -> (r: u16)
        ensures
            r == 1,
    {
        1
    }

    /// The name of every language, in declaration order.
    pub fn get_languages(&self) -> (r: Vec<String>)
        ensures
            r@.len() == all_languages().len(),
            forall|k: int| 0 <= k < r@.len() ==> (#[trigger] r@[k])@ == language_name(all_languages()[k]),
    {
        let all = Language::all();
        let mut r: Vec<String> = Vec::new();
        let mut k: usize = 0;
        while k < all.len()
            invariant
                k <= all@.len(),
                all@ == all_languages(),
                r@.len() == k,
                forall|m: int| 0 <= m < k ==> (#[trigger] r@[m])@ == language_name(all_languages()[m]),
            decreases all@.len() - k,
        {
            r.push(all[k].name());
            k = k + 1;
        }
        r
    }

    /// The name of one language, drawn at random.
    pub fn get_default_lang(&self) -> (r: String)
        ensures
            exists|k: int| 0 <= k < all_languages().len() && r@ == language_name(all_languages()[k]),
    {
        let all = Language::all();
        let k = match choose_below(all.len()) {
            Some(k) => k,
            None => 0,
        };
        all[k].name()
    }

    /// One image, drawn at random; none when the catalog has no image.
    pub fn get_image(&self) -> (r: Option<Image>)
        ensures
            r is None <==> self.images@.len() == 0,
            r matches Some(img) ==> exists|k: int| 0 <= k < self.images@.len() && img.path == self.images@[k],
    {
        match choose_below(self.images.len()) {
            Some(k) => Some(Image { path: self.images[k].clone() }),
            None => None,
        }
    }

    /// Image `page_n` of the catalog, if there is one.
    pub fn get_image_n(&self, page_n: usize) -> (r: Option<Image>)
        ensures
            page_n < self.images@.len() ==> r == Some(Image { path: self.images@[page_n as int] }),
            page_n >= self.images@.len() ==> r is None,
    {
        if page_n < self.images.len() {
            Some(Image { path: self.images[page_n].clone() })
        } else {
            None
        }
    }

    /// The texts of one localized line, drawn at random; none when there is no line.
    pub fn get_page_text(&self) -> (r: Option<PageText>)
        ensures
            r is None <==> self.localized_lines@.len() == 0,
            r matches Some(pt) ==> is_catalog_text(pt, self.localized_lines@),
    {
        match choose_below(self.localized_lines.len()) {
            Some(k) => {
                let pt = page_text_of(&self.localized_lines[k]);
                assert(is_page_text_of(pt, self.localized_lines@[k as int]@));
                Some(pt)
            },
            None => None,
        }
    }

    /// Page `page_n`: image `page_n` as background, with a random line as text.
    pub fn get_source_page_n(&self, page_n: usize) -> (r: SourcePage)
        requires
            page_n < self.images@.len(),
        ensures
            r.background.path == self.images@[page_n as int],
            r.text is None <==> self.localized_lines@.len() == 0,
            r.text matches Some(pt) ==> is_catalog_text(pt, self.localized_lines@),
    {
        let background = self.get_image_n(page_n).unwrap();
        let text = self.get_page_text();
        SourcePage { background, text }
    }

    /// A mock source of a random number of pages in the range, page `i` showing image `i`.
    pub fn build_flipbook(&self, page_range: &PageRange) -> (r: FlipbookSource)
        requires
            page_range.min < page_range.max,
            page_range.max - 1 <= self.images@.len(),
            self.images@.len() > 0,
            self.localized_lines@.len() > 0,
        ensures
            r.version == 1,
            page_range.min <= r.pages@.len() < page_range.max,
            forall|i: int| 0 <= i < r.pages@.len() ==> (#[trigger] r.pages@[i]).background.path
                == self.images@[i] && has_catalog_text(r.pages@[i], self.localized_lines@),
            is_catalog_text(r.title, self.localized_lines@),
            is_catalog_text(r.summary, self.localized_lines@),
            exists|k: int| 0 <= k < all_languages().len() && r.default_language@ == language_name(all_languages()[k]),
            r.languages@.len() == all_languages().len(),
            forall|k: int| 0 <= k < r.languages@.len() ==> (#[trigger] r.languages@[k])@ == language_name(
                all_languages()[k],
            ),
            exists|k: int| 0 <= k < self.images@.len() && r.miniature.path == self.images@[k],
    {
        let span = (page_range.max - page_range.min) as usize;
        let extra = match choose_below(span) {
            Some(x) => x,
            None => 0,
        };
        let num_pages = page_range.min as usize + extra;
        let mut pages: Vec<SourcePage> = Vec::new();
        let mut i: usize = 0;
        while i < num_pages
            invariant
                i <= num_pages,
                num_pages < page_range.max,
                page_range.max - 1 <= self.images@.len(),
                self.images@.len() > 0,
                self.localized_lines@.len() > 0,
                pages@.len() == i,
                forall|m: int| 0 <= m < i ==> (#[trigger] pages@[m]).background.path == self.images@[m]
                    && has_catalog_text(pages@[m], self.localized_lines@),
            decreases num_pages - i,
        {
            pages.push(self.get_source_page_n(i));
            i = i + 1;
        }
        FlipbookSource {
            version: self.get_metadata_version(),
            languages: self.get_languages(),
            default_language: self.get_default_lang(),
            title: self.get_page_text().unwrap(),
            summary: self.get_page_text().unwrap(),
            miniature: self.get_image().unwrap(),
            pages,
        }
    }
}

} // verus!
