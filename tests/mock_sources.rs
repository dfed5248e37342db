use flipbook::catalog::{match_loc_name_ext, Line, MockCatalog};
use flipbook::mock_args::{Language, LANGUAGE_COUNT};

const PATH_SOURCE: &str = "./test_output";

fn image_listing() -> Vec<String> {
    let mut listing: Vec<String> = (0..256)
        .map(|i| format!("{}/images/{:03}.png", PATH_SOURCE, i))
        .collect();
    listing.push(format!("{}/images/notes.txt", PATH_SOURCE));
    listing
}

fn lines_of(lang: Language, n: usize) -> (Language, Vec<(String, Line)>) {
    let name = format!("{:?}", lang);
    let lines = (0..n)
        .map(|i| {
            (
                format!("_{:03}", i),
                Line {
                    text: format!("{} line {}", name, i),
                    tts: Some(format!("{}/tts/{}_{:03}.ogg", PATH_SOURCE, name, i)),
                },
            )
        })
        .collect();
    (lang, lines)
}

fn all_lines() -> Vec<(Language, Vec<(String, Line)>)> {
    vec![
        lines_of(Language::English, 4),
        lines_of(Language::Spanish, 4),
        lines_of(Language::Swedish, 3),
    ]
}

fn catalog() -> MockCatalog {
    MockCatalog::new(&image_listing(), all_lines()).unwrap()
}

#[test]
fn gather_images() {
    let images = MockCatalog::gather_images(&image_listing());
    assert_eq!(images.len(), 256 as usize);
}

#[test]
fn build_mock_catalog() {
    let catalog = MockCatalog::new(&image_listing(), all_lines()).unwrap();
    assert_eq!(catalog.images.len(), 256 as usize);
}

#[test]
fn get_image() {
    let catalog = catalog();
    let pt = catalog.get_image();
    println!(">> {:#?}", pt);
    assert!(pt.is_some());
}

#[test]
fn get_page_text() {
    let catalog = catalog();
    let pt = catalog.get_page_text();
    println!(">> {:#?}", pt);
    assert!(pt.is_some());
}

#[test]
fn get_default_lang() {
    let catalog = catalog();
    let def_lang = catalog.get_default_lang();
    assert!(!def_lang.is_empty());
}

#[test]
fn get_languages() {
    let catalog = catalog();
    let langs = catalog.get_languages();
    assert_eq!(langs.len(), LANGUAGE_COUNT);
}

#[test]
fn catalog_without_lines_is_refused() {
    assert!(MockCatalog::new(&image_listing(), vec![]).is_err());
}

#[test]
fn loc_lines_are_led_by_last_language() {
    let catalog = catalog();
    // Swedish came last and has three lines; each joins the versions of the others.
    assert_eq!(catalog.localized_lines.len(), 3);
    let first = &catalog.localized_lines[0];
    assert_eq!(first.len(), 3);
    assert_eq!(first[0].0, Language::Swedish);
    assert_eq!(first[1].0, Language::English);
    assert_eq!(first[2].0, Language::Spanish);
    assert_eq!(first[1].1.text, "English line 0");
}

#[test]
fn language_names_and_order() {
    let langs = catalog().get_languages();
    assert_eq!(langs, vec!["English", "Spanish", "Swedish"]);
    assert_eq!(Language::Spanish.name(), "Spanish");
}

#[test]
fn image_n_and_source_page() {
    let catalog = catalog();
    assert_eq!(
        catalog.get_image_n(3).unwrap().path,
        "./test_output/images/003.png"
    );
    assert!(catalog.get_image_n(256).is_none());
    let page = catalog.get_source_page_n(5);
    assert_eq!(page.background.path, "./test_output/images/005.png");
    assert!(page.text.is_some());
}

#[test]
fn page_text_of_a_line_has_every_version() {
    let catalog = catalog();
    let pt = flipbook::catalog::page_text_of(&catalog.localized_lines[1]);
    assert_eq!(pt.0.len(), 3);
    assert_eq!(pt.0[0].0, "Swedish");
    assert_eq!(pt.0[0].1.text, "Swedish line 1");
    assert_eq!(
        pt.0[0].1.audio.as_ref().unwrap().path,
        "./test_output/tts/Swedish_001.ogg"
    );
}

#[test]
fn built_flipbook_follows_the_catalog() {
    let catalog = catalog();
    let range = flipbook::mock_args::PageRange { min: 16, max: 32 };
    let source = catalog.build_flipbook(&range);
    assert_eq!(source.version, 1);
    assert!(source.pages.len() >= 16 && source.pages.len() < 32);
    for (i, page) in source.pages.iter().enumerate() {
        assert_eq!(page.background.path, format!("./test_output/images/{:03}.png", i));
    }
    assert_eq!(source.languages.len(), 3);
    assert!(source.languages.contains(&source.default_language));
}

#[test]
fn fake_string_id_drops_the_language_prefix() {
    let id = flipbook::catalog::get_fake_string_id("./texts/Spanish_007.json", "Spanish");
    assert_eq!(id.unwrap(), "_007");
    let id = flipbook::catalog::get_fake_string_id("./texts/EnglishEnglish_1.json", "English");
    assert_eq!(id.unwrap(), "_1");
}

#[test]
fn loc_file_matching() {
    assert!(match_loc_name_ext("./tts/Swedish_000.ogg", "Swedish", "ogg"));
    assert!(!match_loc_name_ext("./tts/Swedish_000.aiff", "Swedish", "ogg"));
    assert!(!match_loc_name_ext("./tts/English_000.ogg", "Swedish", "ogg"));
    assert!(match_loc_name_ext("tts/English_000.ogg/", "English", "ogg"));
    assert_eq!(
        flipbook::catalog::file_stem_as_str("./texts/English_003.json").unwrap(),
        "English_003"
    );
}

#[test]
fn lines_of_a_language_join_their_speech() {
    let speech = vec![
        "./tts/Spanish_000.ogg".to_string(),
        "./tts/Spanish_000.aiff".to_string(),
        "./tts/English_001.ogg".to_string(),
    ];
    let texts = vec![
        ("./texts/Spanish_000.json".to_string(), "Hola".to_string()),
        ("./texts/Spanish_001.json".to_string(), "Adiós".to_string()),
    ];
    let lines = MockCatalog::gather_loc_lines_lang(Language::Spanish, &speech, &texts);
    assert_eq!(lines.len(), 2);
    assert_eq!(lines[0].0, "_000");
    assert_eq!(lines[0].1.text, "Hola");
    assert_eq!(lines[0].1.tts.as_deref(), Some("./tts/Spanish_000.ogg"));
    assert_eq!(lines[1].0, "_001");
    assert!(lines[1].1.tts.is_none());
}

#[test]
fn flipbook_may_use_every_image() {
    // At most `max - 1` pages are drawn, so `max - 1` images are enough.
    let listing: Vec<String> = (0..31).map(|i| format!("img/{:03}.png", i)).collect();
    let catalog = MockCatalog::new(&listing, all_lines()).unwrap();
    let range = flipbook::mock_args::PageRange { min: 30, max: 32 };
    let source = catalog.build_flipbook(&range);
    assert!(source.pages.len() == 30 || source.pages.len() == 31);
    assert_eq!(source.pages.last().unwrap().background.path, format!("img/{:03}.png", source.pages.len() - 1));
}
