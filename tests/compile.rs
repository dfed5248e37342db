use flipbook::compile::{build, compile, Arguments, CompileError};
use flipbook::files::{FileContent, FileStore};
use flipbook::package::FilePositionInPackage;
use flipbook::paths::{extension, file_name, file_stem, format_tag};
use flipbook::source::{Asset, Audio, FlipbookSource, Image, PageText, SourcePage};
use flipbook::string_id::{decimal, page_string_id, summary_string_id, title_string_id};

fn asset(text: &str, audio: Option<&str>) -> Asset {
    Asset {
        text: text.to_string(),
        audio: audio.map(|p| Audio { path: p.to_string() }),
    }
}

fn texts(entries: Vec<(&str, Asset)>) -> PageText {
    let mut pt = PageText::new();
    for (lang, a) in entries {
        pt.insert(lang.to_string(), a);
    }
    pt
}

fn page(background: &str, text: Option<PageText>) -> SourcePage {
    SourcePage {
        background: Image {
            path: background.to_string(),
        },
        text,
    }
}

fn source(languages: &[&str], pages: Vec<SourcePage>) -> FlipbookSource {
    let title = texts(languages.iter().map(|l| (*l, asset(&format!("Title {}", l), None))).collect());
    let summary = texts(languages.iter().map(|l| (*l, asset("", None))).collect());
    FlipbookSource {
        version: 1,
        languages: languages.iter().map(|l| l.to_string()).collect(),
        default_language: languages[0].to_string(),
        title,
        summary,
        miniature: Image {
            path: "mini.png".to_string(),
        },
        pages,
    }
}

fn bytes(n: usize, seed: u8) -> Vec<u8> {
    (0..n).map(|i| seed.wrapping_add(i as u8)).collect()
}

fn store(entries: Vec<(&str, FileContent)>) -> FileStore {
    let mut fs = FileStore::new();
    fs.insert("mini.png".to_string(), FileContent::Bytes(vec![1, 2, 3]));
    for (p, c) in entries {
        fs.insert(p.to_string(), c);
    }
    fs
}

fn text_of(t: &[(String, String)], key: &str) -> Option<String> {
    t.iter().find(|e| e.0 == key).map(|e| e.1.clone())
}

fn pos(format: &str, start: u64, length: u64) -> (String, u64, u64) {
    (format.to_string(), start, length)
}

fn view(f: &FilePositionInPackage) -> (String, u64, u64) {
    (f.format.clone(), f.start, f.length)
}

/// Two pages with backgrounds and audio in two languages.
fn rich() -> (FlipbookSource, FileStore) {
    let src = source(
        &["sv", "en"],
        vec![
            page(
                "page0.PNG",
                Some(texts(vec![
                    ("en", asset("Hi", Some("page0_en.ogg"))),
                    ("sv", asset("Hej", Some("page0_sv.ogg"))),
                ])),
            ),
            page("missing.png", None),
            page(
                "dir/page2.jpg",
                Some(texts(vec![("en", asset("Bye", Some("page2_en.ogg")))])),
            ),
        ],
    );
    let fs = store(vec![
        ("page0.PNG", FileContent::Bytes(bytes(5, 10))),
        ("dir/page2.jpg", FileContent::Bytes(bytes(7, 50))),
        ("page0_en.ogg", FileContent::Bytes(bytes(3, 100))),
        ("page0_sv.ogg", FileContent::Bytes(bytes(4, 150))),
        ("page2_en.ogg", FileContent::Bytes(bytes(2, 200))),
    ]);
    (src, fs)
}

#[test]
fn worked_example() {
    let src = source(
        &["en"],
        vec![
            page("a.png", Some(texts(vec![("en", asset("Hello", None))]))),
            page("b.png", Some(texts(vec![("en", asset("World", None))]))),
        ],
    );
    let fs = store(vec![("a.png", FileContent::Bytes(bytes(10, 0)))]);
    let a = compile(&src, "out/book.json", "out/book.bin", &fs).unwrap();
    let m = &a.metadata;
    assert_eq!(
        m.images_in_pages.iter().map(view).collect::<Vec<_>>(),
        vec![pos("png", 0, 10)]
    );
    assert_eq!(text_of(&m.texts, "PAGE_0_en").unwrap(), "Hello");
    assert_eq!(text_of(&m.texts, "PAGE_1_en").unwrap(), "World");
    assert!(text_of(&m.texts, "TITLE_en").is_some());
    assert!(text_of(&m.texts, "SUMMARY_en").is_some());
    assert_eq!(m.texts.len(), 4);
    assert!(m.audio.is_empty());
    assert_eq!(a.binary_package.len(), 10);
    assert_eq!(a.binary_package, bytes(10, 0));
    assert_eq!(m.binary_package_url, "book.bin");
    assert_eq!(m.title, "TITLE_en");
    assert_eq!(m.summary, "SUMMARY_en");
    assert_eq!(m.version, 1);
    assert_eq!(m.languages, vec!["en".to_string()]);
}

#[test]
fn blob_is_backgrounds_then_audio_in_declared_order() {
    let (src, fs) = rich();
    let a = compile(&src, "m.json", "b.bin", &fs).unwrap();
    let mut expected = bytes(5, 10);
    expected.extend(bytes(7, 50));
    expected.extend(bytes(4, 150)); // page 0, sv: declared first
    expected.extend(bytes(3, 100)); // page 0, en
    expected.extend(bytes(2, 200)); // page 2, en
    assert_eq!(a.binary_package, expected);
    let ids: Vec<String> = a.metadata.audio.iter().map(|e| e.0.clone()).collect();
    assert_eq!(ids, vec!["PAGE_0_sv", "PAGE_0_en", "PAGE_2_en"]);
    let total: u64 = a.metadata.images_in_pages.iter().map(|f| f.length).sum::<u64>()
        + a.metadata.audio.iter().map(|e| e.1.length).sum::<u64>();
    assert_eq!(total, a.binary_package.len() as u64);
}

#[test]
fn positions_are_contiguous() {
    let (src, fs) = rich();
    let a = compile(&src, "m.json", "b.bin", &fs).unwrap();
    let mut all: Vec<(String, u64, u64)> = a.metadata.images_in_pages.iter().map(view).collect();
    all.extend(a.metadata.audio.iter().map(|e| view(&e.1)));
    assert_eq!(all[0].1, 0);
    for w in all.windows(2) {
        assert_eq!(w[0].1 + w[0].2, w[1].1);
    }
    let last = all.last().unwrap();
    assert_eq!(last.1 + last.2, a.binary_package.len() as u64);
    assert_eq!(
        a.metadata.images_in_pages.iter().map(view).collect::<Vec<_>>(),
        vec![pos("png", 0, 5), pos("jpg", 5, 7)]
    );
}

#[test]
fn positions_read_back_the_files() {
    let (src, fs) = rich();
    let a = compile(&src, "m.json", "b.bin", &fs).unwrap();
    let blob = &a.binary_package;
    let slice = |f: &FilePositionInPackage| blob[f.start as usize..(f.start + f.length) as usize].to_vec();
    assert_eq!(slice(&a.metadata.images_in_pages[0]), bytes(5, 10));
    assert_eq!(slice(&a.metadata.images_in_pages[1]), bytes(7, 50));
    assert_eq!(slice(&a.metadata.audio[0].1), bytes(4, 150));
    assert_eq!(slice(&a.metadata.audio[1].1), bytes(3, 100));
    assert_eq!(slice(&a.metadata.audio[2].1), bytes(2, 200));
    assert_eq!(a.metadata.audio[0].1.format, "ogg");
}

#[test]
fn builds_are_reproducible() {
    let (src, fs) = rich();
    let a = compile(&src, "m.json", "b.bin", &fs).unwrap();
    let b = compile(&src, "m.json", "b.bin", &fs).unwrap();
    assert_eq!(a.binary_package, b.binary_package);
    assert_eq!(a.metadata.texts, b.metadata.texts);
    let av: Vec<_> = a.metadata.audio.iter().map(|e| (e.0.clone(), view(&e.1))).collect();
    let bv: Vec<_> = b.metadata.audio.iter().map(|e| (e.0.clone(), view(&e.1))).collect();
    assert_eq!(av, bv);
    assert_eq!(a.metadata.miniature, b.metadata.miniature);
}

#[test]
fn missing_backgrounds_are_omitted() {
    let (src, fs) = rich();
    let a = compile(&src, "m.json", "b.bin", &fs).unwrap();
    // Page 1's background is missing: two entries for three pages.
    assert_eq!(a.metadata.images_in_pages.len(), 2);
    assert_eq!(a.metadata.images_in_pages[1].format, "jpg");
}

#[test]
fn titles_and_summaries_cover_every_language() {
    let (src, fs) = rich();
    let a = compile(&src, "m.json", "b.bin", &fs).unwrap();
    for l in ["sv", "en"] {
        assert_eq!(text_of(&a.metadata.texts, &format!("TITLE_{}", l)).unwrap(), format!("Title {}", l));
        assert_eq!(text_of(&a.metadata.texts, &format!("SUMMARY_{}", l)).unwrap(), "");
    }
    let keys: Vec<&str> = a.metadata.texts.iter().map(|e| e.0.as_str()).collect();
    assert_eq!(
        keys,
        vec!["PAGE_0_sv", "PAGE_0_en", "PAGE_2_en", "TITLE_sv", "TITLE_en", "SUMMARY_sv", "SUMMARY_en"]
    );
}

#[test]
fn undeclared_languages_come_last() {
    let src = source(
        &["en"],
        vec![page(
            "a.png",
            Some(texts(vec![("fr", asset("Salut", None)), ("en", asset("Hi", None))])),
        )],
    );
    let fs = store(vec![]);
    let a = compile(&src, "m.json", "b.bin", &fs).unwrap();
    assert_eq!(a.metadata.texts[0].0, "PAGE_0_en");
    assert_eq!(a.metadata.texts[1].0, "PAGE_0_fr");
}

#[test]
fn miniature_is_inlined_as_base64() {
    let (src, mut fs) = rich();
    fs.insert("mini.png".to_string(), FileContent::Bytes(b"abcd".to_vec()));
    let a = compile(&src, "m.json", "b.bin", &fs).unwrap();
    assert_eq!(a.metadata.miniature, "YWJjZA==");
}

#[test]
fn unreadable_miniature_fails() {
    let (src, mut fs) = rich();
    fs.insert("mini.png".to_string(), FileContent::Missing);
    match compile(&src, "m.json", "b.bin", &fs) {
        Err(CompileError::AssetRead { path }) => assert_eq!(path, "mini.png"),
        other => panic!("unexpected {:?}", other.map(|_| ())),
    }
}

#[test]
fn unreadable_background_fails() {
    let (src, mut fs) = rich();
    fs.insert("dir/page2.jpg".to_string(), FileContent::Unreadable);
    match compile(&src, "m.json", "b.bin", &fs) {
        Err(CompileError::AssetRead { path }) => assert_eq!(path, "dir/page2.jpg"),
        other => panic!("unexpected {:?}", other.map(|_| ())),
    }
}

#[test]
fn missing_audio_fails() {
    let (src, mut fs) = rich();
    fs.insert("page2_en.ogg".to_string(), FileContent::Missing);
    match compile(&src, "m.json", "b.bin", &fs) {
        Err(CompileError::AssetRead { path }) => assert_eq!(path, "page2_en.ogg"),
        other => panic!("unexpected {:?}", other.map(|_| ())),
    }
}

#[test]
fn asset_without_extension_is_unsupported() {
    let src = source(&["en"], vec![page("images/cover", None)]);
    let fs = store(vec![("images/cover", FileContent::Bytes(vec![9]))]);
    match compile(&src, "m.json", "b.bin", &fs) {
        Err(CompileError::UnsupportedAsset { path }) => assert_eq!(path, "images/cover"),
        other => panic!("unexpected {:?}", other.map(|_| ())),
    }
    let src = source(
        &["en"],
        vec![page("a.png", Some(texts(vec![("en", asset("x", Some("speech")))])))],
    );
    let fs = store(vec![("speech", FileContent::Bytes(vec![9]))]);
    match compile(&src, "m.json", "b.bin", &fs) {
        Err(CompileError::UnsupportedAsset { path }) => assert_eq!(path, "speech"),
        other => panic!("unexpected {:?}", other.map(|_| ())),
    }
}

#[test]
fn build_through_arguments() {
    let (src, fs) = rich();
    let args = Arguments {
        source: &src,
        path_metadata: "x/m.json",
        path_binary: "x/y/pkg.bin",
    };
    assert_eq!(args.binary_file_path().unwrap(), "pkg.bin");
    let trailing = Arguments {
        source: &src,
        path_metadata: "m.json",
        path_binary: "out/pkg.bin/",
    };
    assert_eq!(trailing.binary_file_path().unwrap(), "pkg.bin");
    assert_eq!(build(&trailing, &fs).unwrap().metadata.binary_package_url, "pkg.bin");
    let a = build(&args, &fs).unwrap();
    assert_eq!(a.metadata.binary_package_url, "pkg.bin");
    let none = Arguments {
        source: &src,
        path_metadata: "m.json",
        path_binary: "x/..",
    };
    assert!(none.binary_file_path().is_none());
}

#[test]
fn source_accessors() {
    let (src, _) = rich();
    let rows = src.pages_text();
    assert_eq!(
        rows,
        vec![
            (0, "sv".to_string(), "Hej".to_string()),
            (0, "en".to_string(), "Hi".to_string()),
            (2, "en".to_string(), "Bye".to_string()),
        ]
    );
    let audio = src.pages_audios();
    assert_eq!(audio[0], (0, "sv".to_string(), "page0_sv.ogg".to_string()));
    assert_eq!(audio.len(), 3);
    let pt = src.pages[0].text.as_ref().unwrap();
    assert_eq!(pt.texts(), vec![("en".to_string(), "Hi".to_string()), ("sv".to_string(), "Hej".to_string())]);
    assert_eq!(pt.audios()[1], ("sv".to_string(), "page0_sv.ogg".to_string()));
    assert!(src.is_well_formed());
}

#[test]
fn well_formedness() {
    let (mut src, _) = rich();
    assert!(src.is_well_formed());
    src.languages.push("en".to_string());
    assert!(!src.is_well_formed());
    let (mut src, _) = rich();
    src.default_language = "de".to_string();
    assert!(!src.is_well_formed());
    let mut pt = PageText::new();
    pt.insert("en".to_string(), asset("a", None));
    pt.insert("en".to_string(), asset("b", None));
    assert_eq!(pt.0.len(), 1);
    assert_eq!(pt.0[0].1.text, "b");
    pt.0.push(("en".to_string(), asset("c", None)));
    assert!(!pt.is_well_formed());
}

#[test]
fn path_helpers() {
    assert_eq!(file_name("a/b/c.tar.gz").unwrap(), "c.tar.gz");
    assert_eq!(file_name("a/b/").unwrap(), "b");
    assert_eq!(file_name("out/pkg.bin/").unwrap(), "pkg.bin");
    assert_eq!(file_name("foo.txt/.//").unwrap(), "foo.txt");
    assert_eq!(file_name("a/./").unwrap(), "a");
    assert!(file_name("/").is_none());
    assert!(file_name("").is_none());
    assert!(file_name(".").is_none());
    assert!(file_name("a/..").is_none());
    assert!(file_name("/.").is_none());
    assert_eq!(extension("dir/clip.OGG/.").unwrap(), "OGG");
    assert!(file_name("..").is_none());
    assert_eq!(extension("a/b/c.tar.gz").unwrap(), "gz");
    assert!(extension("a/.bashrc").is_none());
    assert!(extension("a.b/c").is_none());
    assert_eq!(extension("c.").unwrap(), "");
    assert_eq!(file_stem("a/c.tar.gz").unwrap(), "c.tar");
    assert_eq!(file_stem("a/.bashrc").unwrap(), ".bashrc");
    assert_eq!(format_tag("Photo.JPEG").unwrap(), "jpeg");
    assert!(format_tag("c.").is_none());
}

#[test]
fn string_ids() {
    assert_eq!(decimal(0), "0");
    assert_eq!(decimal(1907), "1907");
    assert_eq!(page_string_id(12, "en"), "PAGE_12_en");
    assert_eq!(title_string_id("sv"), "TITLE_sv");
    assert_eq!(summary_string_id("es"), "SUMMARY_es");
}

#[test]
fn empty_source_gives_empty_blob() {
    let src = source(&["en"], vec![]);
    let fs = store(vec![]);
    let a = compile(&src, "m.json", "b.bin", &fs).unwrap();
    assert!(a.binary_package.is_empty());
    assert!(a.metadata.images_in_pages.is_empty());
    assert!(a.metadata.audio.is_empty());
    assert_eq!(a.metadata.texts.len(), 2);
}

#[test]
fn a_file_used_twice_is_packed_twice() {
    let src = source(
        &["en"],
        vec![
            page("same.png", Some(texts(vec![("en", asset("a", Some("same.ogg")))]))),
            page("same.png", Some(texts(vec![("en", asset("b", Some("same.ogg")))]))),
        ],
    );
    let fs = store(vec![
        ("same.png", FileContent::Bytes(bytes(3, 1))),
        ("same.ogg", FileContent::Bytes(bytes(2, 9))),
    ]);
    let a = compile(&src, "m.json", "b.bin", &fs).unwrap();
    assert_eq!(a.binary_package.len(), 10);
    assert_eq!(
        a.metadata.images_in_pages.iter().map(view).collect::<Vec<_>>(),
        vec![pos("png", 0, 3), pos("png", 3, 3)]
    );
    assert_eq!(view(&a.metadata.audio[1].1), pos("ogg", 8, 2));
    assert_eq!(a.metadata.audio[1].0, "PAGE_1_en");
}

#[test]
fn later_snapshot_entry_wins() {
    let (src, mut fs) = rich();
    fs.insert("dir/page2.jpg".to_string(), FileContent::Unreadable);
    fs.insert("dir/page2.jpg".to_string(), FileContent::Bytes(bytes(7, 50)));
    assert!(compile(&src, "m.json", "b.bin", &fs).is_ok());
    assert_eq!(fs.lookup(&"dir/page2.jpg".to_string()), Some(fs.entries.len() - 1));
    assert_eq!(fs.lookup(&"nowhere".to_string()), None);
}
