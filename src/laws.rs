//! What holds of every build: how the blob is laid out, that each position reads back
//! the file it stands for, that builds are reproducible, which pages get an image entry,
//! and that titles and summaries are all present.
use vstd::prelude::*;
use crate::compile::{
    audio_items, audio_table, background_items, blob_of, builds, concat_items, layout,
    lemma_layout_len, asset_format,
};
use crate::files::{FileContent, bytes_of, content_of};
use crate::package::{Artifacts, audio_view, positions_view, texts_view};
use crate::package::{distinct_keys, keys_view};
use crate::source::{
    Asset, FlipbookSource, SourcePage, all_distinct, all_page_audios, all_page_texts,
    audio_pairs, declared_entries, declares, keys_unique, lang_index, lemma_lang_index_props,
    ordered_entries, page_audio_rows, page_text_rows, page_texts_wf, undeclared_entries,
};
use crate::string_id::{
    lemma_id_kinds_differ, lemma_page_id_injective, lemma_summary_id_injective,
    lemma_title_id_injective, page_id, summary_id, title_id,
};

verus! {

/// The sum of the lengths of some positions.
pub open spec fn sum_lengths(pos: Seq<(Seq<char>, nat, nat)>) -> nat
    decreases pos.len(),
{
    if pos.len() == 0 {
        0
    } else {
        sum_lengths(pos.drop_last()) + pos.last().2
    }
}

/// The `length` bytes of `blob` from offset `start`.
pub open spec fn slice_at(blob: Seq<u8>, start: nat, length: nat) -> Seq<u8> {
    blob.subrange(start as int, (start + length) as int)
}

/// Each position ends where the next one starts.
pub open spec fn contiguous(pos: Seq<(Seq<char>, nat, nat)>) -> bool {
    forall|i: int| 0 <= i < pos.len() - 1 ==> #[trigger] pos[i].1 + pos[i].2 == pos[i + 1].1
}

/// The positions recorded in the audio table, in insertion order.
pub open spec fn audio_positions(a: Artifacts) -> Seq<(Seq<char>, nat, nat)> {
    audio_view(a.metadata.audio@).map_values(|e: (Seq<char>, (Seq<char>, nat, nat))| e.1)
}

/// The pages whose background exists, by index, in page order.
pub open spec fn existing_backgrounds(pages: Seq<SourcePage>, files: Seq<(String, FileContent)>) -> Seq<int>
    decreases pages.len(),
{
    if pages.len() == 0 {
        seq![]
    } else {
        let prev = existing_backgrounds(pages.drop_last(), files);
        if content_of(files, pages.last().background.path@) is Missing {
            prev
        } else {
            prev.push(pages.len() - 1)
        }
    }
}

/// How many pages have a background that exists.
pub open spec fn count_existing(pages: Seq<SourcePage>, files: Seq<(String, FileContent)>) -> nat
    decreases pages.len(),
{
    if pages.len() == 0 {
        0
    } else {
        count_existing(pages.drop_last(), files) + if content_of(
            files,
            pages.last().background.path@,
        ) is Missing {
            0nat
        } else {
            1nat
        }
    }
}

pub proof fn lemma_concat_append(a: Seq<(Seq<char>, Seq<u8>)>, b: Seq<(Seq<char>, Seq<u8>)>)
    ensures
        concat_items(a + b) == concat_items(a) + concat_items(b),
    decreases b.len(),
{
    if b.len() == 0 {
        assert(a + b =~= a);
        assert(concat_items(a) + concat_items(b) =~= concat_items(a));
    } else {
        lemma_concat_append(a, b.drop_last());
        assert((a + b).drop_last() =~= a + b.drop_last());
        assert(concat_items(a) + concat_items(b) =~= concat_items(a) + concat_items(b.drop_last())
            + b.last().1);
    }
}

pub proof fn lemma_concat_take_succ(items: Seq<(Seq<char>, Seq<u8>)>, i: int)
    requires
        0 <= i < items.len(),
    ensures
        concat_items(items.take(i + 1)) == concat_items(items.take(i)) + items[i].1,
{
    assert(items.take(i + 1).drop_last() =~= items.take(i));
}

pub proof fn lemma_layout_index(items: Seq<(Seq<char>, Seq<u8>)>, base: nat, i: int)
    requires
        0 <= i < items.len(),
    ensures
        layout(items, base)[i] == (items[i].0, base + concat_items(items.take(i)).len(), items[i].1.len()),
    decreases items.len(),
{
    lemma_layout_len(items.drop_last(), base);
    if i == items.len() - 1 {
        assert(items.take(i) =~= items.drop_last());
    } else {
        lemma_layout_index(items.drop_last(), base, i);
        assert(items.drop_last().take(i) =~= items.take(i));
    }
}

/// The bytes of item `i` sit in the concatenation right after those of the items before it.
pub proof fn lemma_concat_slice(items: Seq<(Seq<char>, Seq<u8>)>, i: int)
    requires
        0 <= i < items.len(),
    ensures
        concat_items(items.take(i)).len() + items[i].1.len() <= concat_items(items).len(),
        slice_at(concat_items(items), concat_items(items.take(i)).len(), items[i].1.len()) == items[i].1,
{
    lemma_concat_append(items.take(i + 1), items.skip(i + 1));
    assert(items.take(i + 1) + items.skip(i + 1) =~= items);
    lemma_concat_take_succ(items, i);
    let x = concat_items(items.take(i));
    let y = items[i].1;
    let z = concat_items(items.skip(i + 1));
    assert(concat_items(items) == x + y + z);
    assert(slice_at(x + y + z, x.len(), y.len()) =~= y);
}

pub proof fn lemma_layout_contiguous(items: Seq<(Seq<char>, Seq<u8>)>, base: nat)
    ensures
        contiguous(layout(items, base)),
        items.len() > 0 ==> layout(items, base)[0].1 == base,
        items.len() > 0 ==> layout(items, base).last().1 + layout(items, base).last().2 == base
            + concat_items(items).len(),
{
    lemma_layout_len(items, base);
    let pos = layout(items, base);
    assert forall|i: int| 0 <= i < pos.len() - 1 implies #[trigger] pos[i].1 + pos[i].2 == pos[i + 1].1 by {
        lemma_layout_index(items, base, i);
        lemma_layout_index(items, base, i + 1);
        lemma_concat_take_succ(items, i);
    }
    if items.len() > 0 {
        lemma_layout_index(items, base, 0);
        assert(items.take(0) =~= seq![]);
        lemma_layout_index(items, base, items.len() - 1);
        lemma_concat_take_succ(items, items.len() - 1);
        assert(items.take(items.len() as int) =~= items);
    }
}

pub proof fn lemma_sum_lengths_layout(items: Seq<(Seq<char>, Seq<u8>)>, base: nat)
    ensures
        sum_lengths(layout(items, base)) == concat_items(items).len(),
    decreases items.len(),
{
    if items.len() > 0 {
        lemma_sum_lengths_layout(items.drop_last(), base);
        assert(layout(items, base).drop_last() =~= layout(items.drop_last(), base));
    }
}

/// The audio positions of a build are those of its audio files laid out after the
/// backgrounds.
pub proof fn lemma_audio_positions(src: FlipbookSource, path_binary: Seq<char>, files: Seq<(String, FileContent)>, a: Artifacts)
    requires
        builds(src, path_binary, files, a),
    ensures
        audio_positions(a) == layout(
            audio_items(all_page_audios(src.pages@, src.languages@), files),
            concat_items(background_items(src.pages@, files)).len(),
        ),
{
    let items = audio_items(all_page_audios(src.pages@, src.languages@), files);
    lemma_layout_len(items, concat_items(background_items(src.pages@, files)).len());
    assert(audio_positions(a) =~= layout(items, concat_items(background_items(src.pages@, files)).len()));
}

/// The blob is the existing backgrounds in page order followed by the audio files in
/// page order then declared-language order, and the recorded lengths add up to its length.
pub proof fn law_blob_is_concatenation(src: FlipbookSource, path_binary: Seq<char>, files: Seq<(String, FileContent)>, a: Artifacts)
    requires
        builds(src, path_binary, files, a),
    ensures
        a.binary_package@ == concat_items(background_items(src.pages@, files)) + concat_items(
            audio_items(all_page_audios(src.pages@, src.languages@), files),
        ),
        sum_lengths(positions_view(a.metadata.images_in_pages@)) + sum_lengths(audio_positions(a))
            == a.binary_package@.len(),
{
    let bg = background_items(src.pages@, files);
    let au = audio_items(all_page_audios(src.pages@, src.languages@), files);
    lemma_audio_positions(src, path_binary, files, a);
    lemma_sum_lengths_layout(bg, 0);
    lemma_sum_lengths_layout(au, concat_items(bg).len());
}

/// Image positions, then audio positions, follow one another without gap or overlap from
/// the start of the blob to its end.
pub proof fn law_positions_are_contiguous(src: FlipbookSource, path_binary: Seq<char>, files: Seq<(String, FileContent)>, a: Artifacts)
    requires
        builds(src, path_binary, files, a),
    ensures
        ({
            let images = positions_view(a.metadata.images_in_pages@);
            let audio = audio_positions(a);
            let n = a.binary_package@.len();
            &&& contiguous(images)
            &&& contiguous(audio)
            &&& images.len() > 0 ==> images[0].1 == 0
            &&& images.len() > 0 && audio.len() > 0 ==> images.last().1 + images.last().2
                == audio[0].1
            &&& images.len() > 0 && audio.len() == 0 ==> images.last().1 + images.last().2 == n
            &&& images.len() == 0 && audio.len() > 0 ==> audio[0].1 == 0
            &&& audio.len() > 0 ==> audio.last().1 + audio.last().2 == n
        }),
{
    let bg = background_items(src.pages@, files);
    let au = audio_items(all_page_audios(src.pages@, src.languages@), files);
    lemma_audio_positions(src, path_binary, files, a);
    lemma_layout_contiguous(bg, 0);
    lemma_layout_contiguous(au, concat_items(bg).len());
    lemma_layout_len(bg, 0);
    if bg.len() == 0 {
        assert(concat_items(bg).len() == 0);
    }
}

pub proof fn lemma_existing_backgrounds(pages: Seq<SourcePage>, files: Seq<(String, FileContent)>)
    ensures
        ({
            let present = existing_backgrounds(pages, files);
            &&& present.len() == count_existing(pages, files)
            &&& background_items(pages, files).len() == present.len()
            &&& forall|j: int| 0 <= j < present.len() ==> 0 <= #[trigger] present[j] < pages.len()
                && !(content_of(files, pages[present[j]].background.path@) is Missing)
                && background_items(pages, files)[j] == (
                    asset_format(pages[present[j]].background.path@),
                    bytes_of(files, pages[present[j]].background.path@),
                )
            &&& forall|j: int, m: int| 0 <= j < m < present.len() ==> present[j] < present[m]
            &&& forall|k: int|
                0 <= k < pages.len() && !(content_of(files, pages[k].background.path@) is Missing)
                    ==> present.contains(k)
        }),
    decreases pages.len(),
{
    if pages.len() > 0 {
        let prev_pages = pages.drop_last();
        lemma_existing_backgrounds(prev_pages, files);
        let present = existing_backgrounds(pages, files);
        let prev = existing_backgrounds(prev_pages, files);
        assert forall|j: int| 0 <= j < prev.len() implies pages[#[trigger] prev[j]] == prev_pages[prev[j]] by {}
        assert forall|k: int|
            0 <= k < pages.len() && !(content_of(files, pages[k].background.path@) is Missing)
                implies present.contains(k) by {
            if k < pages.len() - 1 {
                assert(pages[k] == prev_pages[k]);
                assert(prev.contains(k));
                let w = choose|w: int| 0 <= w < prev.len() && prev[w] == k;
                assert(present[w] == k);
            } else {
                assert(present.last() == k);
            }
        }
    }
}

/// Each image entry reads back, from the blob, the bytes of the background it stands for;
/// each audio entry those of its audio file.
pub proof fn law_positions_read_back(src: FlipbookSource, path_binary: Seq<char>, files: Seq<(String, FileContent)>, a: Artifacts)
    requires
        builds(src, path_binary, files, a),
    ensures
        ({
            let blob = a.binary_package@;
            let images = positions_view(a.metadata.images_in_pages@);
            let present = existing_backgrounds(src.pages@, files);
            let rows = all_page_audios(src.pages@, src.languages@);
            let audio = audio_positions(a);
            &&& images.len() == present.len()
            &&& forall|j: int| 0 <= j < images.len() ==> slice_at(blob, #[trigger] images[j].1, images[j].2) == bytes_of(files, src.pages@[present[j]].background.path@)
            &&& audio.len() == rows.len()
            &&& forall|i: int| 0 <= i < audio.len() ==> slice_at(blob, #[trigger] audio[i].1, audio[i].2) == bytes_of(files, rows[i].2@)
        }),
{
    let bg = background_items(src.pages@, files);
    let rows = all_page_audios(src.pages@, src.languages@);
    let au = audio_items(rows, files);
    let blob = a.binary_package@;
    let base = concat_items(bg).len();
    let images = positions_view(a.metadata.images_in_pages@);
    let audio = audio_positions(a);
    let present = existing_backgrounds(src.pages@, files);
    lemma_audio_positions(src, path_binary, files, a);
    lemma_existing_backgrounds(src.pages@, files);
    lemma_layout_len(bg, 0);
    lemma_layout_len(au, base);
    assert forall|j: int| 0 <= j < images.len() implies slice_at(blob, #[trigger] images[j].1, images[j].2) == bytes_of(files, src.pages@[present[j]].background.path@) by {
        lemma_layout_index(bg, 0, j);
        lemma_concat_slice(bg, j);
        assert(slice_at(blob, images[j].1, images[j].2) =~= slice_at(concat_items(bg), images[j].1, images[j].2));
    }
    assert forall|i: int| 0 <= i < audio.len() implies slice_at(blob, #[trigger] audio[i].1, audio[i].2) == bytes_of(files, rows[i].2@) by {
        lemma_layout_index(au, base, i);
        lemma_concat_slice(au, i);
        assert(slice_at(blob, audio[i].1, audio[i].2) =~= slice_at(concat_items(au), (audio[i].1 - base) as nat, audio[i].2));
    }
}

/// Two builds of one source over the same files produce the same blob and the same
/// tables.
pub proof fn law_builds_are_reproducible(src: FlipbookSource, path_binary: Seq<char>, files: Seq<(String, FileContent)>, a1: Artifacts, a2: Artifacts)
    requires
        builds(src, path_binary, files, a1),
        builds(src, path_binary, files, a2),
    ensures
        a1.binary_package@ == a2.binary_package@,
        texts_view(a1.metadata.texts@) == texts_view(a2.metadata.texts@),
        audio_view(a1.metadata.audio@) == audio_view(a2.metadata.audio@),
        positions_view(a1.metadata.images_in_pages@) == positions_view(a2.metadata.images_in_pages@),
        a1.metadata.miniature@ == a2.metadata.miniature@,
{
}

/// A page whose background is missing has no image entry; there are as many image entries
/// as pages whose background exists, and they follow the order of those pages.
pub proof fn law_missing_backgrounds_are_omitted(src: FlipbookSource, path_binary: Seq<char>, files: Seq<(String, FileContent)>, a: Artifacts)
    requires
        builds(src, path_binary, files, a),
    ensures
        ({
            let images = a.metadata.images_in_pages@;
            let present = existing_backgrounds(src.pages@, files);
            &&& images.len() == count_existing(src.pages@, files)
            &&& images.len() == present.len()
            &&& forall|k: int|
                0 <= k < src.pages@.len() && content_of(files, src.pages@[k].background.path@) is Missing
                    ==> !present.contains(k)
            &&& forall|j: int| 0 <= j < present.len() ==> 0 <= #[trigger] present[j] < src.pages@.len()
                && !(content_of(files, src.pages@[present[j]].background.path@) is Missing)
                && images[j].format@ == asset_format(src.pages@[present[j]].background.path@)
            &&& forall|j: int, m: int| 0 <= j < m < present.len() ==> present[j] < present[m]
        }),
{
    let bg = background_items(src.pages@, files);
    let images = a.metadata.images_in_pages@;
    let present = existing_backgrounds(src.pages@, files);
    lemma_existing_backgrounds(src.pages@, files);
    lemma_layout_len(bg, 0);
    assert(positions_view(images).len() == images.len());
    assert forall|j: int| 0 <= j < present.len() implies 0 <= #[trigger] present[j] < src.pages@.len()
        && !(content_of(files, src.pages@[present[j]].background.path@) is Missing)
        && images[j].format@ == asset_format(src.pages@[present[j]].background.path@) by {
        lemma_layout_index(bg, 0, j);
        assert(positions_view(images)[j] == images[j]@);
    }
    assert forall|k: int|
        0 <= k < src.pages@.len() && content_of(files, src.pages@[k].background.path@) is Missing
            implies !present.contains(k) by {
        if present.contains(k) {
            let w = choose|w: int| 0 <= w < present.len() && present[w] == k;
            assert(!(content_of(files, src.pages@[present[w]].background.path@) is Missing));
        }
    }
}

pub proof fn lemma_declared_has(pt: Seq<(String, Asset)>, langs: Seq<String>, l: Seq<char>)
    requires
        declares(langs, l),
        lang_index(pt, l) >= 0,
    ensures
        exists|m: int|
            0 <= m < declared_entries(pt, langs).len() && (#[trigger] declared_entries(pt, langs)[m]).0@
                == l,
    decreases langs.len(),
{
    lemma_lang_index_props(pt, l);
    let k = choose|k: int| 0 <= k < langs.len() && langs[k]@ == l;
    let d = declared_entries(pt, langs);
    if k == langs.len() - 1 {
        assert(d.last().0@ == l);
    } else {
        assert(langs.drop_last()[k] == langs[k]);
        lemma_declared_has(pt, langs.drop_last(), l);
        let prev = declared_entries(pt, langs.drop_last());
        let m = choose|m: int| 0 <= m < prev.len() && (#[trigger] prev[m]).0@ == l;
        assert(d[m] == prev[m]);
    }
}

/// `t` has an entry under `key`.
pub open spec fn has_key(t: Seq<(Seq<char>, Seq<char>)>, key: Seq<char>) -> bool {
    exists|i: int| 0 <= i < t.len() && (#[trigger] t[i]).0 == key
}

/// Where the title and the summary have a text in every declared language, the text table
/// holds `TITLE_<lang>` and `SUMMARY_<lang>` for each of them.
pub proof fn law_titles_and_summaries_complete(src: FlipbookSource, path_binary: Seq<char>, files: Seq<(String, FileContent)>, a: Artifacts)
    requires
        builds(src, path_binary, files, a),
        forall|k: int| 0 <= k < src.languages@.len() ==> lang_index(src.title.0@, (#[trigger] src.languages@[k])@) >= 0,
        forall|k: int| 0 <= k < src.languages@.len() ==> lang_index(src.summary.0@, (#[trigger] src.languages@[k])@) >= 0,
    ensures
        forall|k: int| 0 <= k < src.languages@.len() ==> has_key(
            texts_view(a.metadata.texts@),
            title_id((#[trigger] src.languages@[k])@),
        ) && has_key(texts_view(a.metadata.texts@), summary_id(src.languages@[k]@)),
{
    let langs = src.languages@;
    let t = texts_view(a.metadata.texts@);
    let pages_part = crate::compile::page_text_table(crate::source::all_page_texts(src.pages@, langs));
    let titles = ordered_entries(src.title.0@, langs);
    let summaries = ordered_entries(src.summary.0@, langs);
    assert forall|k: int| 0 <= k < langs.len() implies has_key(t, title_id((#[trigger] langs[k])@))
        && has_key(t, summary_id(langs[k]@)) by {
        let l = langs[k]@;
        assert(declares(langs, l));
        lemma_declared_has(src.title.0@, langs, l);
        lemma_declared_has(src.summary.0@, langs, l);
        let dt = declared_entries(src.title.0@, langs);
        let ds = declared_entries(src.summary.0@, langs);
        let mt = choose|m: int| 0 <= m < dt.len() && (#[trigger] dt[m]).0@ == l;
        let ms = choose|m: int| 0 <= m < ds.len() && (#[trigger] ds[m]).0@ == l;
        assert(titles[mt] == dt[mt]);
        assert(summaries[ms] == ds[ms]);
        let it = pages_part.len() + mt;
        let is = pages_part.len() + titles.len() + ms;
        assert(t[it].0 == title_id(l));
        assert(t[is].0 == summary_id(l));
    }
}

pub proof fn lemma_declared_keys(pt: Seq<(String, Asset)>, langs: Seq<String>)
    requires
        all_distinct(langs),
    ensures
        keys_unique(declared_entries(pt, langs)),
        forall|m: int| 0 <= m < declared_entries(pt, langs).len() ==> declares(
            langs,
            (#[trigger] declared_entries(pt, langs)[m]).0@,
        ),
    decreases langs.len(),
{
    if langs.len() > 0 {
        let prev_langs = langs.drop_last();
        assert(all_distinct(prev_langs)) by {
            assert forall|i: int, j: int| 0 <= i < j < prev_langs.len() implies prev_langs[i]@ != prev_langs[j]@ by {
                assert(prev_langs[i] == langs[i] && prev_langs[j] == langs[j]);
            }
        }
        lemma_declared_keys(pt, prev_langs);
        lemma_lang_index_props(pt, langs.last()@);
        let prev = declared_entries(pt, prev_langs);
        let d = declared_entries(pt, langs);
        assert forall|m: int| 0 <= m < prev.len() implies (#[trigger] prev[m]).0@ != langs.last()@ by {
            let k = choose|k: int| 0 <= k < prev_langs.len() && prev_langs[k]@ == prev[m].0@;
            assert(langs[k] == prev_langs[k]);
        }
        assert forall|m: int| 0 <= m < d.len() implies declares(langs, (#[trigger] d[m]).0@) by {
            if m < prev.len() {
                assert(d[m] == prev[m]);
                let k = choose|k: int| 0 <= k < prev_langs.len() && prev_langs[k]@ == prev[m].0@;
                assert(langs[k] == prev_langs[k]);
            } else {
                assert(langs[langs.len() - 1]@ == d[m].0@);
            }
        }
        assert forall|i: int, j: int| 0 <= i < j < d.len() implies d[i].0@ != d[j].0@ by {
            if j < prev.len() {
                assert(d[i] == prev[i] && d[j] == prev[j]);
            } else {
                assert(d[i] == prev[i]);
            }
        }
    }
}

pub proof fn lemma_undeclared_keys(pt: Seq<(String, Asset)>, langs: Seq<String>)
    requires
        keys_unique(pt),
    ensures
        keys_unique(undeclared_entries(pt, langs)),
        forall|m: int| 0 <= m < undeclared_entries(pt, langs).len() ==> !declares(
            langs,
            (#[trigger] undeclared_entries(pt, langs)[m]).0@,
        ) && exists|k: int| 0 <= k < pt.len() && pt[k] == undeclared_entries(pt, langs)[m],
    decreases pt.len(),
{
    if pt.len() > 0 {
        let prev_pt = pt.drop_last();
        assert(keys_unique(prev_pt)) by {
            assert forall|i: int, j: int| 0 <= i < j < prev_pt.len() implies prev_pt[i].0@ != prev_pt[j].0@ by {
                assert(prev_pt[i] == pt[i] && prev_pt[j] == pt[j]);
            }
        }
        lemma_undeclared_keys(prev_pt, langs);
        let prev = undeclared_entries(prev_pt, langs);
        let u = undeclared_entries(pt, langs);
        assert forall|m: int| 0 <= m < prev.len() implies (#[trigger] prev[m]).0@ != pt.last().0@
            && exists|k: int| 0 <= k < pt.len() && pt[k] == prev[m] by {
            let k = choose|k: int| 0 <= k < prev_pt.len() && prev_pt[k] == prev[m];
            assert(pt[k] == prev_pt[k]);
        }
        assert forall|m: int| 0 <= m < u.len() implies !declares(langs, (#[trigger] u[m]).0@) && exists|k: int|
            0 <= k < pt.len() && pt[k] == u[m] by {
            if m < prev.len() {
                assert(u[m] == prev[m]);
            } else {
                assert(pt[pt.len() - 1] == u[m]);
            }
        }
        assert forall|i: int, j: int| 0 <= i < j < u.len() implies u[i].0@ != u[j].0@ by {
            assert(u[i] == prev[i]);
            if j < prev.len() {
                assert(u[j] == prev[j]);
            }
        }
    }
}

/// In a well-formed localized text, the visiting order meets each language once.
pub proof fn lemma_ordered_keys_unique(pt: Seq<(String, Asset)>, langs: Seq<String>)
    requires
        keys_unique(pt),
        all_distinct(langs),
    ensures
        keys_unique(ordered_entries(pt, langs)),
{
    lemma_declared_keys(pt, langs);
    lemma_undeclared_keys(pt, langs);
    let d = declared_entries(pt, langs);
    let u = undeclared_entries(pt, langs);
    let o = ordered_entries(pt, langs);
    assert forall|i: int, j: int| 0 <= i < j < o.len() implies o[i].0@ != o[j].0@ by {
        if j < d.len() {
            assert(o[i] == d[i] && o[j] == d[j]);
        } else if i >= d.len() {
            assert(o[i] == u[i - d.len()] && o[j] == u[j - d.len()]);
        } else {
            assert(o[i] == d[i] && o[j] == u[j - d.len()]);
        }
    }
}

pub proof fn lemma_audio_pairs_keys(entries: Seq<(String, Asset)>)
    requires
        keys_unique(entries),
    ensures
        keys_unique(audio_pairs(entries)),
        forall|m: int| 0 <= m < audio_pairs(entries).len() ==> exists|k: int|
            0 <= k < entries.len() && entries[k].0@ == (#[trigger] audio_pairs(entries)[m]).0@,
    decreases entries.len(),
{
    if entries.len() > 0 {
        let prev_e = entries.drop_last();
        assert(keys_unique(prev_e)) by {
            assert forall|i: int, j: int| 0 <= i < j < prev_e.len() implies prev_e[i].0@ != prev_e[j].0@ by {
                assert(prev_e[i] == entries[i] && prev_e[j] == entries[j]);
            }
        }
        lemma_audio_pairs_keys(prev_e);
        let prev = audio_pairs(prev_e);
        let a = audio_pairs(entries);
        assert forall|m: int| 0 <= m < prev.len() implies (#[trigger] prev[m]).0@ != entries.last().0@
            && exists|k: int| 0 <= k < entries.len() && entries[k].0@ == prev[m].0@ by {
            let k = choose|k: int| 0 <= k < prev_e.len() && prev_e[k].0@ == prev[m].0@;
            assert(entries[k] == prev_e[k]);
        }
        assert forall|m: int| 0 <= m < a.len() implies exists|k: int|
            0 <= k < entries.len() && entries[k].0@ == (#[trigger] a[m]).0@ by {
            if m < prev.len() {
                assert(a[m] == prev[m]);
            } else {
                assert(entries[entries.len() - 1].0@ == a[m].0@);
            }
        }
        assert forall|i: int, j: int| 0 <= i < j < a.len() implies a[i].0@ != a[j].0@ by {
            assert(a[i] == prev[i]);
            if j < prev.len() {
                assert(a[j] == prev[j]);
            }
        }
    }
}

/// No two rows share both page and language.
pub open spec fn rows_distinct(rows: Seq<(usize, String, String)>) -> bool {
    forall|i: int, j: int| 0 <= i < j < rows.len() ==> rows[i].0 != rows[j].0 || rows[i].1@ != rows[j].1@
}

/// Appending the rows of a later page keeps rows distinct.
pub proof fn lemma_rows_append(prev: Seq<(usize, String, String)>, block: Seq<(usize, String, String)>, page: usize)
    requires
        rows_distinct(prev),
        forall|m: int| 0 <= m < prev.len() ==> (#[trigger] prev[m]).0 < page,
        forall|m: int| 0 <= m < block.len() ==> (#[trigger] block[m]).0 == page,
        forall|i: int, j: int| 0 <= i < j < block.len() ==> block[i].1@ != block[j].1@,
    ensures
        rows_distinct(prev + block),
        forall|m: int| 0 <= m < (prev + block).len() ==> (#[trigger] (prev + block)[m]).0 <= page,
{
    let r = prev + block;
    assert forall|i: int, j: int| 0 <= i < j < r.len() implies r[i].0 != r[j].0 || r[i].1@ != r[j].1@ by {
        if j < prev.len() {
            assert(r[i] == prev[i] && r[j] == prev[j]);
        } else if i >= prev.len() {
            assert(r[i] == block[i - prev.len()] && r[j] == block[j - prev.len()]);
        } else {
            assert(r[i] == prev[i] && r[j] == block[j - prev.len()]);
        }
    }
    assert forall|m: int| 0 <= m < r.len() implies (#[trigger] r[m]).0 <= page by {
        if m < prev.len() {
            assert(r[m] == prev[m]);
        } else {
            assert(r[m] == block[m - prev.len()]);
        }
    }
}

pub proof fn lemma_page_texts_wf_prefix(pages: Seq<SourcePage>)
    requires
        pages.len() > 0,
        page_texts_wf(pages),
    ensures
        page_texts_wf(pages.drop_last()),
{
    assert forall|k: int| 0 <= k < pages.drop_last().len() && (#[trigger] pages.drop_last()[k]).text is Some
        implies pages.drop_last()[k].text->0.wf() by {
        assert(pages.drop_last()[k] == pages[k]);
    }
}

pub proof fn lemma_page_text_rows_distinct(pages: Seq<SourcePage>, langs: Seq<String>)
    requires
        all_distinct(langs),
        page_texts_wf(pages),
        pages.len() <= usize::MAX,
    ensures
        rows_distinct(all_page_texts(pages, langs)),
        forall|m: int| 0 <= m < all_page_texts(pages, langs).len() ==> (#[trigger] all_page_texts(pages, langs)[m]).0
            < pages.len(),
    decreases pages.len(),
{
    if pages.len() > 0 {
        lemma_page_texts_wf_prefix(pages);
        lemma_page_text_rows_distinct(pages.drop_last(), langs);
        let prev = all_page_texts(pages.drop_last(), langs);
        let p = (pages.len() - 1) as usize;
        match pages.last().text {
            Some(pt) => {
                assert(pages[pages.len() - 1].text is Some);
                lemma_ordered_keys_unique(pt.0@, langs);
                let block = page_text_rows(pages.len() - 1, ordered_entries(pt.0@, langs));
                lemma_rows_append(prev, block, p);
            },
            None => {},
        }
    }
}

pub proof fn lemma_page_audio_rows_distinct(pages: Seq<SourcePage>, langs: Seq<String>)
    requires
        all_distinct(langs),
        page_texts_wf(pages),
        pages.len() <= usize::MAX,
    ensures
        rows_distinct(all_page_audios(pages, langs)),
        forall|m: int| 0 <= m < all_page_audios(pages, langs).len() ==> (#[trigger] all_page_audios(pages, langs)[m]).0
            < pages.len(),
    decreases pages.len(),
{
    if pages.len() > 0 {
        lemma_page_texts_wf_prefix(pages);
        lemma_page_audio_rows_distinct(pages.drop_last(), langs);
        let prev = all_page_audios(pages.drop_last(), langs);
        let p = (pages.len() - 1) as usize;
        match pages.last().text {
            Some(pt) => {
                assert(pages[pages.len() - 1].text is Some);
                lemma_ordered_keys_unique(pt.0@, langs);
                lemma_audio_pairs_keys(ordered_entries(pt.0@, langs));
                let block = page_audio_rows(pages.len() - 1, ordered_entries(pt.0@, langs));
                lemma_rows_append(prev, block, p);
            },
            None => {},
        }
    }
}

/// Under a well-formed source, no StringID occurs twice in the text table or in the
/// audio table.
pub proof fn law_string_ids_are_unique(src: FlipbookSource, path_binary: Seq<char>, files: Seq<(String, FileContent)>, a: Artifacts)
    requires
        builds(src, path_binary, files, a),
        src.wf(),
        src.pages@.len() <= usize::MAX,
    ensures
        distinct_keys(keys_view(a.metadata.texts@)),
        distinct_keys(keys_view(a.metadata.audio@)),
{
    let langs = src.languages@;
    let rows = all_page_texts(src.pages@, langs);
    let arows = all_page_audios(src.pages@, langs);
    lemma_page_text_rows_distinct(src.pages@, langs);
    lemma_page_audio_rows_distinct(src.pages@, langs);
    lemma_ordered_keys_unique(src.title.0@, langs);
    lemma_ordered_keys_unique(src.summary.0@, langs);
    let titles = ordered_entries(src.title.0@, langs);
    let summaries = ordered_entries(src.summary.0@, langs);
    let t = texts_view(a.metadata.texts@);
    let k = keys_view(a.metadata.texts@);
    let np = rows.len();
    let nt = titles.len();
    let ptab = crate::compile::page_text_table(rows);
    let ttab = crate::compile::title_table(titles);
    let stab = crate::compile::summary_table(summaries);
    assert(t == ptab + ttab + stab);
    assert(t.len() == np + nt + summaries.len());
    assert forall|i: int| 0 <= i < np implies #[trigger] t[i].0 == page_id(rows[i].0 as nat, rows[i].1@) by {
        assert(t[i] == ptab[i]);
    }
    assert forall|i: int| np <= i < np + nt implies #[trigger] t[i].0 == title_id(titles[i - np].0@) by {
        assert(t[i] == ttab[i - np]);
    }
    assert forall|i: int| np + nt <= i < t.len() implies #[trigger] t[i].0 == summary_id(summaries[i - np - nt].0@) by {
        assert(t[i] == stab[i - np - nt]);
    }
    assert forall|i: int, j: int| 0 <= i < j < k.len() implies k[i] != k[j] by {
        assert(k[i] == t[i].0 && k[j] == t[j].0);
        if j < np {
            if rows[i].0 == rows[j].0 {
                assert(rows[i].1@ != rows[j].1@);
            }
            if page_id(rows[i].0 as nat, rows[i].1@) == page_id(rows[j].0 as nat, rows[j].1@) {
                lemma_page_id_injective(rows[i].0 as nat, rows[i].1@, rows[j].0 as nat, rows[j].1@);
            }
        } else if i >= np + nt {
            if k[i] == k[j] {
                lemma_summary_id_injective(summaries[i - np - nt].0@, summaries[j - np - nt].0@);
            }
        } else if i >= np && j < np + nt {
            if k[i] == k[j] {
                lemma_title_id_injective(titles[i - np].0@, titles[j - np].0@);
            }
        } else if i < np {
            if j < np + nt {
                lemma_id_kinds_differ(rows[i].0 as nat, rows[i].1@, titles[j - np].0@, seq![]);
            } else {
                lemma_id_kinds_differ(rows[i].0 as nat, rows[i].1@, seq![], summaries[j - np - nt].0@);
            }
        } else {
            lemma_id_kinds_differ(0, seq![], titles[i - np].0@, summaries[j - np - nt].0@);
        }
    }
    let au = audio_view(a.metadata.audio@);
    let ka = keys_view(a.metadata.audio@);
    assert(au == audio_table(src, files));
    assert(au.len() == arows.len());
    assert forall|i: int, j: int| 0 <= i < j < ka.len() implies ka[i] != ka[j] by {
        assert(ka[i] == au[i].0 && ka[j] == au[j].0);
        assert(au[i].0 == page_id(arows[i].0 as nat, arows[i].1@));
        assert(au[j].0 == page_id(arows[j].0 as nat, arows[j].1@));
        if arows[i].0 == arows[j].0 {
            assert(arows[i].1@ != arows[j].1@);
        }
        if page_id(arows[i].0 as nat, arows[i].1@) == page_id(arows[j].0 as nat, arows[j].1@) {
            lemma_page_id_injective(arows[i].0 as nat, arows[i].1@, arows[j].0 as nat, arows[j].1@);
        }
    }
}

} // verus!
