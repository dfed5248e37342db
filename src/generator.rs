//! What the mock-flipbook generator does for a set of options, and the names of the
//! flipbooks it writes.
use vstd::prelude::*;
use vstd::string::*;
use crate::mock_args::{ImageSize, Language, PageRange};
use crate::string_id::{decimal, decimal_of};

verus! {

/// Options of the mock-flipbook generator.
#[derive(Clone, Debug)]
pub struct Args {
    /// Where the raw assets and the generated flipbooks are stored.
    pub path: String,
    /// Render the mock images.
    pub image: bool,
    /// Write the sample texts to files.
    pub string: bool,
    /// Synthesize the speech of the sample texts.
    pub tts: bool,
    /// Restricts speech synthesis to one language.
    pub lang: Option<Language>,
    /// How many pages the flipbooks have.
    pub pages: PageRange,
    /// The size of the mock images.
    pub image_size: ImageSize,
    /// How many flipbooks to compile out of the assets.
    pub num_flipbooks: u32,
}

/// One stage of a generator run.
#[derive(Clone, Copy, Debug, PartialEq, Eq, Structural)]
pub enum Step {
    /// Speech of the samples: of one language, or of all of them.
    Speech(Option<Language>),
    /// The sample texts, one file each.
    Texts,
    /// The mock images, rendered one per page of the largest flipbook.
    Images,
    /// A miniature of each rendered image.
    Miniatures,
    /// The flipbooks compiled out of the assets.
    Flipbooks,
}

/// The stages of a run, in order.
pub open spec fn plan(tts: bool, lang: Option<Language>, string: bool, image: bool) -> Seq<Step> {
    (if tts {
        seq![Step::Speech(lang)]
    } else {
        seq![]
    }) + (if string {
        seq![Step::Texts]
    } else {
        seq![]
    }) + (if image {
        seq![Step::Images, Step::Miniatures, Step::Flipbooks]
    } else {
        seq![Step::Flipbooks]
    })
}

/// The stages a run with `args` goes through, in order.
pub fn generate_assets(args: &Args) -> (r: Vec<Step>)
    ensures
        r@ == plan(args.tts, args.lang, args.string, args.image),
{
    let mut steps: Vec<Step> = Vec::new();
    if args.tts {
        steps.push(Step::Speech(args.lang));
    }
    if args.string {
        steps.push(Step::Texts);
    }
    if args.image {
        steps.push(Step::Images);
        steps.push(Step::Miniatures);
    }
    steps.push(Step::Flipbooks);
    assert(steps@ =~= plan(args.tts, args.lang, args.string, args.image));
    steps
}

/// `n` in decimal, padded with zeros to at least three digits.
pub open spec fn padded3(n: nat) -> Seq<char> {
    let d = decimal_of(n);
    if d.len() >= 3 {
        d
    } else if d.len() == 2 {
        seq!['0'] + d
    } else {
        seq!['0', '0'] + d
    }
}

/// The stem of the files of flipbook `book_number`: `fb_` and the number on three digits.
pub open spec fn flipbook_stem(book_number: nat) -> Seq<char> {
    seq!['f', 'b', '_'] + padded3(book_number)
}

/// The file names of the metadata and of the blob of flipbook `book_number`.
pub fn flipbook_file_names(book_number: u32) -> (r: (String, String))
    ensures
        r.0@ == flipbook_stem(book_number as nat) + seq!['.', 'j', 's', 'o', 'n'],
        r.1@ == flipbook_stem(book_number as nat) + seq!['.', 'b', 'i', 'n'],
{
    proof {
        reveal_strlit("fb_");
        reveal_strlit("0");
        reveal_strlit("00");
        reveal_strlit(".json");
        reveal_strlit(".bin");
    }
    let d = decimal(book_number as usize);
    let mut stem = String::from_str("fb_");
    let len = d.as_str().unicode_len();
    if len == 2 {
        stem.append("0");
    } else if len < 2 {
        stem.append("00");
    }
    stem.append(d.as_str());
    assert(stem@ =~= flipbook_stem(book_number as nat));
    let mut meta = stem.clone();
    meta.append(".json");
    let mut bin = stem;
    bin.append(".bin");
    (meta, bin)
}

/// The file names of every flipbook of a run, metadata and blob, in book order.
pub fn generate_flipbooks(num_flipbooks: u32) -> (r: Vec<(String, String)>)
    ensures
        r@.len() == num_flipbooks,
        forall|k: int| 0 <= k < num_flipbooks ==> (#[trigger] r@[k]).0@ == flipbook_stem(k as nat) + seq![
            '.',
            'j',
            's',
            'o',
            'n',
        ] && r@[k].1@ == flipbook_stem(k as nat) + seq!['.', 'b', 'i', 'n'],
{
    let mut names: Vec<(String, String)> = Vec::new();
    let mut k: u32 = 0;
    while k < num_flipbooks
        invariant
            k <= num_flipbooks,
            names@.len() == k,
            forall|m: int| 0 <= m < k ==> (#[trigger] names@[m]).0@ == flipbook_stem(m as nat) + seq![
                '.',
                'j',
                's',
                'o',
                'n',
            ] && names@[m].1@ == flipbook_stem(m as nat) + seq!['.', 'b', 'i', 'n'],
        decreases num_flipbooks - k,
    {
        names.push(flipbook_file_names(k));
        k = k + 1;
    }
    names
}

} // verus!
