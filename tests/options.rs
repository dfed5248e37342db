use flipbook::generator::{flipbook_file_names, generate_assets, generate_flipbooks, Args, Step};
use flipbook::miniature::{generate_miniatures, miniature_path, miniature_size};
use flipbook::mock_args::{ImageSize, InvalidValue, Language, PageRange};
use flipbook::server::is_metadata_file;

#[test]
fn image_size_parses_pairs() {
    let s = ImageSize::from_str("640,480").unwrap();
    assert_eq!((s.width, s.height), (640, 480));
    let s = ImageSize::from_str(" 640 ,\t480 ").unwrap();
    assert_eq!((s.width, s.height), (640, 480));
    assert_eq!(ImageSize::from_str("640").unwrap_err(), InvalidValue::NotAPair);
    assert_eq!(ImageSize::from_str("1,2,3").unwrap_err(), InvalidValue::NotAPair);
    assert_eq!(ImageSize::from_str("70000,1").unwrap_err(), InvalidValue::NotAPair);
    assert_eq!(ImageSize::from_str("-1,1").unwrap_err(), InvalidValue::NotAPair);
    assert_eq!(ImageSize::from_str("65535,+7").unwrap().height, 7);
    let d = ImageSize::default();
    assert_eq!((d.width, d.height), (1080, 1920));
    assert_eq!(d.to_string(), "1080,1920");
}

#[test]
fn page_range_parses_and_checks() {
    let r = PageRange::from_str("16,32").unwrap();
    assert_eq!((r.min, r.max), (16, 32));
    assert_eq!(PageRange::from_str("0,0").unwrap_err(), InvalidValue::BadRange);
    assert_eq!(PageRange::from_str("5,3").unwrap_err(), InvalidValue::BadRange);
    assert_eq!(PageRange::from_str("a,3").unwrap_err(), InvalidValue::NotAPair);
    let r = PageRange::from_str("4,4").unwrap();
    assert_eq!((r.min, r.max), (4, 4));
    assert_eq!(PageRange::default().to_string(), "16,32");
}

fn args(tts: bool, lang: Option<Language>, string: bool, image: bool) -> Args {
    Args {
        path: "out".to_string(),
        image,
        string,
        tts,
        lang,
        pages: PageRange::default(),
        image_size: ImageSize::default(),
        num_flipbooks: 2,
    }
}

#[test]
fn generator_stages() {
    assert_eq!(generate_assets(&args(false, None, false, false)), vec![Step::Flipbooks]);
    assert_eq!(
        generate_assets(&args(true, Some(Language::Swedish), true, true)),
        vec![
            Step::Speech(Some(Language::Swedish)),
            Step::Texts,
            Step::Images,
            Step::Miniatures,
            Step::Flipbooks
        ]
    );
    assert_eq!(
        generate_assets(&args(true, None, false, false)),
        vec![Step::Speech(None), Step::Flipbooks]
    );
}

#[test]
fn flipbook_file_names_are_padded() {
    assert_eq!(
        flipbook_file_names(7),
        ("fb_007.json".to_string(), "fb_007.bin".to_string())
    );
    assert_eq!(flipbook_file_names(42).0, "fb_042.json");
    assert_eq!(flipbook_file_names(1234).1, "fb_1234.bin");
    let all = generate_flipbooks(3);
    assert_eq!(all.len(), 3);
    assert_eq!(all[2].0, "fb_002.json");
    assert!(generate_flipbooks(0).is_empty());
}

#[test]
fn miniature_jobs_and_sizes() {
    assert_eq!(miniature_size(1080, 1922), (270, 480));
    assert_eq!(
        miniature_path("out/images/003.png", "out/miniatures").unwrap(),
        "out/miniatures/003.png"
    );
    assert_eq!(
        miniature_path("003.png", "out/miniatures/").unwrap(),
        "out/miniatures/003.png"
    );
    let listing = vec![
        "out/images/000.png".to_string(),
        "out/images/readme.md".to_string(),
        "out/images/001.png".to_string(),
    ];
    let jobs = generate_miniatures(&listing, "out/miniatures");
    assert_eq!(
        jobs,
        vec![
            ("out/images/000.png".to_string(), "out/miniatures/000.png".to_string()),
            ("out/images/001.png".to_string(), "out/miniatures/001.png".to_string()),
        ]
    );
}

#[test]
fn build_miniature_quarters_the_image() {
    let img = image::DynamicImage::new_rgb8(40, 20);
    let small = flipbook::miniature::build_miniature(&img);
    assert_eq!((small.width(), small.height()), (10, 5));
}

#[test]
fn metadata_files_are_json() {
    assert!(is_metadata_file("dir/fb_000.json"));
    assert!(!is_metadata_file("dir/fb_000.bin"));
    assert!(!is_metadata_file("dir/README"));
    assert!(!is_metadata_file("dir/.json"));
}
