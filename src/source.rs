//! The source description of a flipbook, as written by its author.
use vstd::prelude::*;

verus! {

/// Identifies the version of the metadata layout.
pub type MetadataVersion = u16;

/// A reference to an image file.
#[derive(Clone, Debug)]
pub struct Image {
    pub path: String,
}

/// A reference to an audio file.
#[derive(Clone, Debug)]
pub struct Audio {
    pub path: String,
}

/// A text in one language, with an optional reading of it.
#[derive(Clone, Debug)]
pub struct Asset {
    pub text: String,
    pub audio: Option<Audio>,
}

/// Localized texts keyed by language code; a language occurs at most once.
#[derive(Clone, Debug)]
pub struct PageText(pub Vec<(String, Asset)>);

#[derive(Clone, Debug)]
pub struct SourcePage {
    pub background: Image,
    /// A page such as the cover may have no text at all.
    pub text: Option<PageText>,
}

#[derive(Clone, Debug)]
pub struct FlipbookSource {
    pub version: MetadataVersion,
    pub languages: Vec<String>,
    pub default_language: String,
    pub title: PageText,
    pub summary: PageText,
    pub miniature: Image,
    pub pages: Vec<SourcePage>,
}

/// No two entries share a key.
pub open spec fn keys_unique<V>(s: Seq<(String, V)>) -> bool {
    forall|i: int, j: int| 0 <= i < j < s.len() ==> s[i].0@ != s[j].0@
}

/// No two strings are equal.
pub open spec fn all_distinct(s: Seq<String>) -> bool {
    forall|i: int, j: int| 0 <= i < j < s.len() ==> s[i]@ != s[j]@
}

/// `l` is one of `langs`.
pub open spec fn declares(langs: Seq<String>, l: Seq<char>) -> bool {
    exists|k: int| 0 <= k < langs.len() && langs[k]@ == l
}

/// Index of the last entry of `pt` in language `l`, or -1.
pub open spec fn lang_index(pt: Seq<(String, Asset)>, l: Seq<char>) -> int
    decreases pt.len(),
{
    if pt.len() == 0 {
        -1
    } else if pt.last().0@ == l {
        pt.len() - 1
    } else {
        lang_index(pt.drop_last(), l)
    }
}

/// The entries of `pt` whose language is in `langs`, in the order of `langs`.
pub open spec fn declared_entries(pt: Seq<(String, Asset)>, langs: Seq<String>) -> Seq<(String, Asset)>
    decreases langs.len(),
{
    if langs.len() == 0 {
        seq![]
    } else {
        let prev = declared_entries(pt, langs.drop_last());
        let i = lang_index(pt, langs.last()@);
        if i >= 0 {
            prev.push(pt[i])
        } else {
            prev
        }
    }
}

/// The entries of `pt` whose language is not in `langs`, in their stored order.
pub open spec fn undeclared_entries(pt: Seq<(String, Asset)>, langs: Seq<String>) -> Seq<(String, Asset)>
    decreases pt.len(),
{
    if pt.len() == 0 {
        seq![]
    } else {
        let prev = undeclared_entries(pt.drop_last(), langs);
        if declares(langs, pt.last().0@) {
            prev
        } else {
            prev.push(pt.last())
        }
    }
}

/// The order in which a build visits the entries of a localized text: the declared
/// languages first, in declaration order, then any other language in stored order.
pub open spec fn ordered_entries(pt: Seq<(String, Asset)>, langs: Seq<String>) -> Seq<(String, Asset)> {
    declared_entries(pt, langs) + undeclared_entries(pt, langs)
}

/// `(language, text)` of each entry.
pub open spec fn text_pairs(entries: Seq<(String, Asset)>) -> Seq<(String, String)> {
    entries.map_values(|e: (String, Asset)| (e.0, e.1.text))
}

/// `(language, audio path)` of each entry that has audio, in order.
pub open spec fn audio_pairs(entries: Seq<(String, Asset)>) -> Seq<(String, String)>
    decreases entries.len(),
{
    if entries.len() == 0 {
        seq![]
    } else {
        let prev = audio_pairs(entries.drop_last());
        match entries.last().1.audio {
            Some(a) => prev.push((entries.last().0, a.path)),
            None => prev,
        }
    }
}

/// `(page, language, text)` rows of one page.
pub open spec fn page_text_rows(page: int, entries: Seq<(String, Asset)>) -> Seq<(usize, String, String)> {
    entries.map_values(|e: (String, Asset)| (page as usize, e.0, e.1.text))
}

/// `(page, language, audio path)` rows of one page.
pub open spec fn page_audio_rows(page: int, entries: Seq<(String, Asset)>) -> Seq<(usize, String, String)> {
    audio_pairs(entries).map_values(|e: (String, String)| (page as usize, e.0, e.1))
}

/// Every page text, page by page, each page in visiting order.
pub open spec fn all_page_texts(pages: Seq<SourcePage>, langs: Seq<String>) -> Seq<(usize, String, String)>
    decreases pages.len(),
{
    if pages.len() == 0 {
        seq![]
    } else {
        let prev = all_page_texts(pages.drop_last(), langs);
        match pages.last().text {
            Some(pt) => prev + page_text_rows(pages.len() - 1, ordered_entries(pt.0@, langs)),
            None => prev,
        }
    }
}

/// Every page audio reference, page by page, each page in visiting order.
pub open spec fn all_page_audios(pages: Seq<SourcePage>, langs: Seq<String>) -> Seq<(usize, String, String)>
    decreases pages.len(),
{
    if pages.len() == 0 {
        seq![]
    } else {
        let prev = all_page_audios(pages.drop_last(), langs);
        match pages.last().text {
            Some(pt) => prev + page_audio_rows(pages.len() - 1, ordered_entries(pt.0@, langs)),
            None => prev,
        }
    }
}

/// `idx` picks, one by one, the entries of `s` out of `pt`.
pub open spec fn picks(pt: Seq<(String, Asset)>, idx: Seq<usize>, s: Seq<(String, Asset)>) -> bool {
    &&& idx.len() == s.len()
    &&& forall|k: int| 0 <= k < idx.len() ==> (#[trigger] idx[k]) < pt.len() && pt[idx[k] as int] == s[k]
}

impl PageText {
    /// Each language occurs once.
    pub open spec fn wf(&self) -> bool {
        keys_unique(self.0@)
    }

    /// An empty set of texts.
    pub fn new() -> (r: PageText)
        ensures
            r.0@.len() == 0,
            r.wf(),
    {
        PageText(Vec::new())
    }

    /// Sets the asset of language `lang`, replacing the one it had.
    pub fn insert(&mut self, lang: String, asset: Asset)
        requires
            old(self).wf(),
        ensures
            final(self).wf(),
            lang_index(old(self).0@, lang@) >= 0 ==> final(self).0@ == old(self).0@.update(
                lang_index(old(self).0@, lang@),
                (lang, asset),
            ),
            lang_index(old(self).0@, lang@) < 0 ==> final(self).0@ == old(self).0@.push((lang, asset)),
    {
        match find_lang(&self.0, &lang) {
            Some(i) => {
                proof {
                    lemma_lang_index_props(self.0@, lang@);
                }
                self.0.set(i, (lang, asset));
            },
            None => {
                proof {
                    lemma_lang_index_absent(self.0@, lang@);
                }
                self.0.push((lang, asset));
            },
        }
    }

    /// Whether each language occurs once.
    pub fn is_well_formed(&self) -> (r: bool)
        ensures
            r == self.wf(),
    {
        let v = &self.0;
        let mut j: usize = 0;
        while j < v.len()
            invariant
                j <= v@.len(),
                v@ == self.0@,
                forall|a: int, b: int| 0 <= a < b < j ==> v@[a].0@ != v@[b].0@,
            decreases v@.len() - j,
        {
            let mut i: usize = 0;
            while i < j
                invariant
                    i <= j < v@.len(),
                    v@ == self.0@,
                    forall|a: int| 0 <= a < i ==> v@[a].0@ != v@[j as int].0@,
                decreases j - i,
            {
                if v[i].0 == v[j].0 {
                    assert(!keys_unique(v@)) by {
                        assert(v@[i as int].0@ == v@[j as int].0@);
                    }
                    return false;
                }
                i = i + 1;
            }
            j = j + 1;
        }
        true
    }

    /// Every `(language, text)`, in stored order.
    pub fn texts(&self) -> (r: Vec<(String, String)>)
        ensures
            r@ == text_pairs(self.0@),
    {
        let mut answer: Vec<(String, String)> = Vec::new();
        let mut i: usize = 0;
        while i < self.0.len()
            invariant
                i <= self.0@.len(),
                answer@ == text_pairs(self.0@.take(i as int)),
            decreases self.0@.len() - i,
        {
            let e = &self.0[i];
            answer.push((e.0.clone(), e.1.text.clone()));
            proof {
                assert(text_pairs(self.0@.take(i + 1)) =~= text_pairs(self.0@.take(i as int)).push(
                    (e.0, e.1.text),
                ));
            }
            i = i + 1;
        }
        assert(self.0@.take(i as int) =~= self.0@);
        answer
    }

    /// Every `(language, audio path)` of the entries that have audio, in stored order.
    pub fn audios(&self) -> (r: Vec<(String, String)>)
        ensures
            r@ == audio_pairs(self.0@),
    {
        let mut answer: Vec<(String, String)> = Vec::new();
        let mut i: usize = 0;
        while i < self.0.len()
            invariant
                i <= self.0@.len(),
                answer@ == audio_pairs(self.0@.take(i as int)),
            decreases self.0@.len() - i,
        {
            let e = &self.0[i];
            proof {
                assert(self.0@.take(i + 1).drop_last() =~= self.0@.take(i as int));
            }
            if let Some(audio) = &e.1.audio {
                answer.push((e.0.clone(), audio.path.clone()));
            }
            i = i + 1;
        }
        assert(self.0@.take(i as int) =~= self.0@);
        answer
    }
}

pub proof fn lemma_lang_index_props(pt: Seq<(String, Asset)>, l: Seq<char>)
    ensures
        -1 <= lang_index(pt, l) < pt.len(),
        lang_index(pt, l) >= 0 ==> pt[lang_index(pt, l)].0@ == l,
    decreases pt.len(),
{
    if pt.len() > 0 && pt.last().0@ != l {
        lemma_lang_index_props(pt.drop_last(), l);
    }
}

/// When no entry is in language `l`, there is none of it at any position.
pub proof fn lemma_lang_index_absent(pt: Seq<(String, Asset)>, l: Seq<char>)
    requires
        lang_index(pt, l) < 0,
    ensures
        forall|k: int| 0 <= k < pt.len() ==> (#[trigger] pt[k]).0@ != l,
    decreases pt.len(),
{
    if pt.len() > 0 {
        lemma_lang_index_absent(pt.drop_last(), l);
        assert forall|k: int| 0 <= k < pt.len() implies (#[trigger] pt[k]).0@ != l by {
            if k < pt.len() - 1 {
                assert(pt[k] == pt.drop_last()[k]);
            }
        }
    }
}

/// Every page text of a well-formed source has each language once.
pub open spec fn page_texts_wf(pages: Seq<SourcePage>) -> bool {
    forall|k: int| 0 <= k < pages.len() && (#[trigger] pages[k]).text is Some ==> pages[k].text->0.wf()
}

impl FlipbookSource {
    /// The languages form a set holding the default one, and every localized text has
    /// each language once.
    pub open spec fn wf(&self) -> bool {
        &&& all_distinct(self.languages@)
        &&& declares(self.languages@, self.default_language@)
        &&& self.title.wf()
        &&& self.summary.wf()
        &&& page_texts_wf(self.pages@)
    }

    /// Every `(page index, language, text)`, page by page, the languages of each page in
    /// visiting order.
    pub fn pages_text(&self) -> (r: Vec<(usize, String, String)>)
        ensures
            r@ == all_page_texts(self.pages@, self.languages@),
    {
        let mut answer: Vec<(usize, String, String)> = Vec::new();
        let mut pos: usize = 0;
        while pos < self.pages.len()
            invariant
                pos <= self.pages@.len(),
                answer@ == all_page_texts(self.pages@.take(pos as int), self.languages@),
            decreases self.pages@.len() - pos,
        {
            let ghost before = answer@;
            assert(self.pages@.take(pos + 1).drop_last() =~= self.pages@.take(pos as int));
            assert(self.pages@.take(pos + 1).last() == self.pages@[pos as int]);
            if let Some(pt) = &self.pages[pos].text {
                let order = visit_order(&pt.0, &self.languages);
                let ghost ordered = ordered_entries(pt.0@, self.languages@);
                let mut k: usize = 0;
                while k < order.len()
                    invariant
                        k <= order@.len(),
                        pos < self.pages@.len(),
                        picks(pt.0@, order@, ordered),
                        answer@ == before + page_text_rows(pos as int, ordered.take(k as int)),
                    decreases order@.len() - k,
                {
                    let e = &pt.0[order[k]];
                    answer.push((pos, e.0.clone(), e.1.text.clone()));
                    assert(page_text_rows(pos as int, ordered.take(k + 1)) =~= page_text_rows(
                        pos as int,
                        ordered.take(k as int),
                    ).push((pos, e.0, e.1.text)));
                    k = k + 1;
                }
                assert(ordered.take(k as int) =~= ordered);
            }
            pos = pos + 1;
        }
        assert(self.pages@.take(pos as int) =~= self.pages@);
        answer
    }

    /// Every `(page index, language, audio path)`, page by page, the languages of each
    /// page in visiting order.
    pub fn pages_audios(&self) -> (r: Vec<(usize, String, String)>)
        ensures
            r@ == all_page_audios(self.pages@, self.languages@),
    {
        let mut answer: Vec<(usize, String, String)> = Vec::new();
        let mut pos: usize = 0;
        while pos < self.pages.len()
            invariant
                pos <= self.pages@.len(),
                answer@ == all_page_audios(self.pages@.take(pos as int), self.languages@),
            decreases self.pages@.len() - pos,
        {
            let ghost before = answer@;
            assert(self.pages@.take(pos + 1).drop_last() =~= self.pages@.take(pos as int));
            assert(self.pages@.take(pos + 1).last() == self.pages@[pos as int]);
            if let Some(pt) = &self.pages[pos].text {
                let order = visit_order(&pt.0, &self.languages);
                let ghost ordered = ordered_entries(pt.0@, self.languages@);
                let mut k: usize = 0;
                while k < order.len()
                    invariant
                        k <= order@.len(),
                        pos < self.pages@.len(),
                        picks(pt.0@, order@, ordered),
                        answer@ == before + page_audio_rows(pos as int, ordered.take(k as int)),
                    decreases order@.len() - k,
                {
                    let e = &pt.0[order[k]];
                    assert(ordered.take(k + 1).drop_last() =~= ordered.take(k as int));
                    if let Some(audio) = &e.1.audio {
                        answer.push((pos, e.0.clone(), audio.path.clone()));
                        assert(page_audio_rows(pos as int, ordered.take(k + 1)) =~= page_audio_rows(
                            pos as int,
                            ordered.take(k as int),
                        ).push((pos, e.0, audio.path)));
                    } else {
                        assert(page_audio_rows(pos as int, ordered.take(k + 1)) =~= page_audio_rows(
                            pos as int,
                            ordered.take(k as int),
                        ));
                    }
                    k = k + 1;
                }
                assert(ordered.take(k as int) =~= ordered);
            }
            pos = pos + 1;
        }
        assert(self.pages@.take(pos as int) =~= self.pages@);
        answer
    }

    /// Whether the source is well formed.
    pub fn is_well_formed(&self) -> (r: bool)
        ensures
            r == self.wf(),
    {
        if !strings_distinct(&self.languages) || !is_declared(&self.languages, &self.default_language)
            || !self.title.is_well_formed() || !self.summary.is_well_formed() {
            return false;
        }
        let mut i: usize = 0;
        while i < self.pages.len()
            invariant
                i <= self.pages@.len(),
                page_texts_wf(self.pages@.take(i as int)),
            decreases self.pages@.len() - i,
        {
            if let Some(pt) = &self.pages[i].text {
                if !pt.is_well_formed() {
                    assert(!page_texts_wf(self.pages@)) by {
                        assert(self.pages@[i as int].text is Some);
                    }
                    return false;
                }
            }
            assert(page_texts_wf(self.pages@.take(i + 1))) by {
                assert forall|k: int| 0 <= k < i + 1 && (#[trigger] self.pages@.take(i + 1)[k]).text is Some
                    implies self.pages@.take(i + 1)[k].text->0.wf() by {
                    if k < i {
                        assert(self.pages@.take(i + 1)[k] == self.pages@.take(i as int)[k]);
                    }
                }
            }
            i = i + 1;
        }
        assert(self.pages@.take(i as int) =~= self.pages@);
        true
    }
}

/// Whether no two of `s` are equal.
pub fn strings_distinct(s: &Vec<String>) -> (r: bool)
    ensures
        r == all_distinct(s@),
{
    let mut j: usize = 0;
    while j < s.len()
        invariant
            j <= s@.len(),
            forall|a: int, b: int| 0 <= a < b < j ==> s@[a]@ != s@[b]@,
        decreases s@.len() - j,
    {
        let mut i: usize = 0;
        while i < j
            invariant
                i <= j < s@.len(),
                forall|a: int| 0 <= a < i ==> s@[a]@ != s@[j as int]@,
            decreases j - i,
        {
            if s[i] == s[j] {
                assert(!all_distinct(s@)) by {
                    assert(s@[i as int]@ == s@[j as int]@);
                }
                return false;
            }
            i = i + 1;
        }
        j = j + 1;
    }
    true
}

/// Position of the entry of `pt` in language `l`.
pub fn find_lang(pt: &Vec<(String, Asset)>, l: &String) -> (r: Option<usize>)
    ensures
        match r {
            Some(i) => i as int == lang_index(pt@, l@),
            None => lang_index(pt@, l@) == -1,
        },
{
    let mut i: usize = pt.len();
    assert(pt@.take(i as int) =~= pt@);
    while i > 0
        invariant
            i <= pt@.len(),
            lang_index(pt@, l@) == lang_index(pt@.take(i as int), l@),
        decreases i,
    {
        assert(pt@.take(i as int).drop_last() =~= pt@.take(i - 1));
        if pt[i - 1].0 == *l {
            return Some(i - 1);
        }
        i = i - 1;
    }
    None
}

/// Whether `l` is one of `langs`.
pub fn is_declared(langs: &Vec<String>, l: &String) -> (r: bool)
    ensures
        r == declares(langs@, l@),
{
    let mut i: usize = 0;
    while i < langs.len()
        invariant
            i <= langs@.len(),
            forall|k: int| 0 <= k < i ==> langs@[k]@ != l@,
        decreases langs@.len() - i,
    {
        if langs[i] == *l {
            return true;
        }
        i = i + 1;
    }
    false
}

/// The positions in `pt` of its entries, in visiting order.
pub fn visit_order(pt: &Vec<(String, Asset)>, langs: &Vec<String>) -> (r: Vec<usize>)
    ensures
        picks(pt@, r@, ordered_entries(pt@, langs@)),
{
    let mut r: Vec<usize> = Vec::new();
    let mut i: usize = 0;
    while i < langs.len()
        invariant
            i <= langs@.len(),
            picks(pt@, r@, declared_entries(pt@, langs@.take(i as int))),
        decreases langs@.len() - i,
    {
        let ghost prev = r@;
        assert(langs@.take(i + 1).drop_last() =~= langs@.take(i as int));
        match find_lang(pt, &langs[i]) {
            Some(k) => {
                proof {
                    lemma_lang_index_props(pt@, langs@[i as int]@);
                }
                r.push(k);
                assert(picks(pt@, r@, declared_entries(pt@, langs@.take(i + 1)))) by {
                    assert forall|m: int| 0 <= m < r@.len() implies (#[trigger] r@[m]) < pt@.len()
                        && pt@[r@[m] as int] == declared_entries(pt@, langs@.take(i + 1))[m] by {
                        if m < prev.len() {
                            assert(r@[m] == prev[m]);
                        }
                    }
                }
            },
            None => {},
        }
        i = i + 1;
    }
    assert(langs@.take(i as int) =~= langs@);
    let ghost declared = declared_entries(pt@, langs@);
    let mut j: usize = 0;
    assert(declared + undeclared_entries(pt@.take(0), langs@) =~= declared);
    while j < pt.len()
        invariant
            j <= pt@.len(),
            declared == declared_entries(pt@, langs@),
            picks(pt@, r@, declared + undeclared_entries(pt@.take(j as int), langs@)),
        decreases pt@.len() - j,
    {
        let ghost prev = r@;
        assert(pt@.take(j + 1).drop_last() =~= pt@.take(j as int));
        assert(pt@.take(j + 1).last() == pt@[j as int]);
        if !is_declared(langs, &pt[j].0) {
            r.push(j);
            let ghost target = declared + undeclared_entries(pt@.take(j + 1), langs@);
            assert(target =~= (declared + undeclared_entries(pt@.take(j as int), langs@)).push(pt@[j as int]));
            assert(picks(pt@, r@, target)) by {
                assert forall|m: int| 0 <= m < r@.len() implies (#[trigger] r@[m]) < pt@.len()
                    && pt@[r@[m] as int] == target[m] by {
                    if m < prev.len() {
                        assert(r@[m] == prev[m]);
                    }
                }
            }
        }
        j = j + 1;
    }
    assert(pt@.take(j as int) =~= pt@);
    r
}

} // verus!
