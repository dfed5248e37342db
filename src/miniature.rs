//! Miniatures of the generated images: which files get one, where it goes, and its size.
use vstd::prelude::*;
use vstd::string::*;
use image::GenericImageView;
use crate::catalog::{MockCatalog, images_among, lemma_images_have_extension};
use crate::paths::{extension_of, file_name, file_name_of};

verus! {

#[verifier::external_type_specification]
#[verifier::external_body]
pub struct ExDynamicImage(image::DynamicImage);

/// Relies on image's `GenericImageView::dimensions` for `DynamicImage`: width and height.
#[verifier::external_body]
fn image_dimensions(img: &image::DynamicImage) -> (r: (u32, u32)) {
    img.dimensions()
}

/// Relies on image's `DynamicImage::resize` with the Catmull-Rom filter: a new image that
/// fits within `width` by `height`, aspect ratio kept.
#[verifier::external_body]
fn resize_catmull_rom(img: &image::DynamicImage, width: u32, height: u32) -> (r: image::DynamicImage) {
    img.resize(width, height, image::imageops::FilterType::CatmullRom)
}

/// `name` placed in directory `dir`.
pub open spec fn joined_path(dir: Seq<char>, name: Seq<char>) -> Seq<char> {
    if dir.len() == 0 {
        name
    } else if dir.last() == '/' {
        dir + name
    } else {
        dir + seq!['/'] + name
    }
}

/// Places `name` in directory `dir`.
pub fn join_path(dir: &str, name: &str) -> (r: String)
    ensures
        r@ == joined_path(dir@, name@),
{
    proof {
        reveal_strlit("/");
    }
    let n = dir.unicode_len();
    let mut s = String::from_str(dir);
    if n > 0 && dir.get_char(n - 1) != '/' {
        s.append("/");
    }
    s.append(name);
    s
}

/// Where the miniature of the image at `img_path` goes in `target_dir`: under the same
/// file name.
pub fn miniature_path(img_path: &str, target_dir: &str) -> (r: Option<String>)
    ensures
        match file_name_of(img_path@) {
            Some(n) => r matches Some(t) && t@ == joined_path(target_dir@, n),
            None => r is None,
        },
{
    match file_name(img_path) {
        Some(n) => Some(join_path(target_dir, n.as_str())),
        None => None,
    }
}

/// The size of a miniature: a quarter of the image's in each direction.
pub fn miniature_size(width: u32, height: u32) -> (r: (u32, u32))
    ensures
        r == (width / 4, height / 4),
{
    (width / 4, height / 4)
}

/// The miniature of an image: the image resized to a quarter of its size in each
/// direction.
pub fn build_miniature(img: &image::DynamicImage) -> image::DynamicImage {
    let (width, height) = image_dimensions(img);
    let (w, h) = miniature_size(width, height);
    resize_catmull_rom(img, w, h)
}

/// The miniature of image `job.0` goes to `job.1`.
pub open spec fn is_miniature_job(job: (String, String), target_dir: Seq<char>) -> bool {
    match file_name_of(job.0@) {
        Some(n) => job.1@ == joined_path(target_dir, n),
        None => false,
    }
}

/// `(image, miniature)` paths of the images of `listing`, in listing order.
pub fn generate_miniatures(listing: &Vec<String>, target_dir: &str) -> (r: Vec<(String, String)>)
    ensures
        r@.len() == images_among(listing@).len(),
        forall|k: int| 0 <= k < r@.len() ==> (#[trigger] r@[k]).0 == images_among(listing@)[k]
            && is_miniature_job(r@[k], target_dir@),
{
    let images = MockCatalog::gather_images(listing);
    proof {
        lemma_images_have_extension(listing@);
    }
    let mut jobs: Vec<(String, String)> = Vec::new();
    let mut k: usize = 0;
    while k < images.len()
        invariant
            k <= images@.len(),
            images@ == images_among(listing@),
            forall|j: int| 0 <= j < images@.len() ==> extension_of((#[trigger] images@[j])@) is Some,
            jobs@.len() == k,
            forall|m: int| 0 <= m < k ==> (#[trigger] jobs@[m]).0 == images@[m] && is_miniature_job(
                jobs@[m],
                target_dir@,
            ),
        decreases images@.len() - k,
    {
        assert(extension_of(images@[k as int]@) is Some);
        let t = miniature_path(images[k].as_str(), target_dir).unwrap();
        jobs.push((images[k].clone(), t));
        k = k + 1;
    }
    jobs
}

} // verus!
