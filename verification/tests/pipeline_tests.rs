use img2epub::compress::{aggregate_results, compress_img, compress_images_parallel, observer_done, CompletionCounter, CompressOptions};
use img2epub::document::{create_epub, page_template, replace_template_val, stylesheet, EpubError};
use img2epub::extract::{is_image_file, join_path, list_images, plan_entry, EntryPlan};
use img2epub::pipeline::{order_images, sort_by_origin, with_ext_jpg, ImgInfo};
use img2epub::text::{file_name_of, replace_all, str_eq_ignore_case, str_le};

fn png_bytes() -> Vec<u8> {
    let img = image::RgbImage::from_pixel(4, 4, image::Rgb([10, 200, 30]));
    let mut out: Vec<u8> = Vec::new();
    img.write_to(&mut std::io::Cursor::new(&mut out), image::ImageFormat::Png)
        .expect("encode png");
    out
}

fn jpg_bytes() -> Vec<u8> {
    let img = image::RgbImage::from_pixel(4, 4, image::Rgb([200, 10, 30]));
    let mut out: Vec<u8> = Vec::new();
    img.write_to(&mut std::io::Cursor::new(&mut out), image::ImageFormat::Jpeg)
        .expect("encode jpeg");
    out
}

#[test]
fn test_sort() {
    let mut imgs = Vec::<ImgInfo>::new();

    imgs.push(ImgInfo::build("103.png"));
    imgs.push(ImgInfo::build("102.png"));
    imgs.push(ImgInfo::build("101.png"));

    println!("{:?}", imgs);

    sort_by_origin(&mut imgs);
    println!("{:?}", imgs);

    assert_eq!(imgs[0].origin_path, "101.png");
    assert_eq!(imgs[1].origin_path, "102.png");
    assert_eq!(imgs[2].origin_path, "103.png");
}

#[test]
fn test_compress() {
    let r = compress_img(&jpg_bytes(), 80);
    assert!(r.is_ok());
    let r = compress_img(&png_bytes(), 80);
    assert!(r.is_ok());
}

#[test]
fn test_image_allow_list_case_insensitive() {
    assert!(is_image_file("picture.JPG"));
    assert!(is_image_file("a/b/photo.jpeg"));
    assert!(is_image_file("scan.PnG"));
    assert!(is_image_file("x.webp"));
    assert!(!is_image_file("notes.txt"));
    assert!(!is_image_file("archive.zip"));
    assert!(!is_image_file("no_extension"));
    assert!(!is_image_file(".jpg"));
}

#[test]
fn test_non_image_never_staged() {
    assert!(matches!(plan_entry("staged", "notes.txt"), EntryPlan::Skip));
    match plan_entry("staged", "picture.JPG") {
        EntryPlan::Stage(info) => {
            assert_eq!(info.origin_path, "staged/picture.JPG");
            assert_eq!(info.output_path, "staged/picture.jpg");
        }
        _ => panic!("expected a staged descriptor"),
    }
}

#[test]
fn test_with_ext_jpg_paths() {
    assert_eq!(with_ext_jpg("a/b.png"), "a/b.jpg");
    assert_eq!(with_ext_jpg("a/b"), "a/b.jpg");
    assert_eq!(with_ext_jpg("a/.hidden"), "a/.hidden.jpg");
    assert_eq!(with_ext_jpg("c.jpeg"), "c.jpg");
    assert_eq!(with_ext_jpg(""), "");
    let info = ImgInfo::build("dir/sub/photo.webp");
    assert_eq!(info.output_path, "dir/sub/photo.jpg");
    assert_eq!(info.display_name(), "photo.jpg");
}

#[test]
fn test_text_helpers() {
    assert_eq!(file_name_of("a/b/c.txt"), "c.txt");
    assert_eq!(file_name_of("a/b/"), "b");
    assert_eq!(file_name_of("plain"), "plain");
    assert!(str_le("a", "b"));
    assert!(str_le("abc", "abd"));
    assert!(!str_le("b", "ab"));
    assert!(str_eq_ignore_case("JPeG", "jpeg"));
    assert!(!str_eq_ignore_case("jpg", "jpeg"));
    assert_eq!(join_path("d", "x"), "d/x");
    assert_eq!(join_path("d/", "x"), "d/x");
    assert_eq!(join_path("", "x"), "x");
}

#[test]
fn test_replace_placeholders() {
    assert_eq!(replace_all("#{title} and #{title}", "#{title}", "x"), "x and x");
    assert_eq!(replace_all("abc", "d", "e"), "abc");
    let page = replace_template_val("p1.jpg", "../images/p1.jpg.jpg");
    assert!(page.contains("<title>p1.jpg</title>"));
    assert!(page.contains("src=\"../images/p1.jpg.jpg\""));
    assert!(page.contains("alt=\"p1.jpg\""));
    assert!(!page.contains("#{title}"));
    assert!(!page.contains("#{image}"));
    assert!(page_template().contains("#{title}"));
    assert!(stylesheet().contains("img"));
}

#[test]
fn test_ordering_policy() {
    let mut imgs = vec![
        ImgInfo::build("e/b.png"),
        ImgInfo::build("e/a.jpg"),
        ImgInfo::build("e/c.webp"),
    ];
    let mut same = imgs.clone();
    order_images(&mut same, false);
    assert_eq!(same[0].origin_path, "e/b.png");
    assert_eq!(same[1].origin_path, "e/a.jpg");
    assert_eq!(same[2].origin_path, "e/c.webp");
    order_images(&mut imgs, true);
    assert_eq!(imgs[0].origin_path, "e/a.jpg");
    assert_eq!(imgs[1].origin_path, "e/b.png");
    assert_eq!(imgs[2].origin_path, "e/c.webp");
}

#[test]
fn test_lister_empty_for_non_images() {
    let names = vec![
        String::from("readme.txt"),
        String::from("docs/"),
        String::from("docs/manual.pdf"),
    ];
    let imgs = list_images("staged", &names);
    assert_eq!(imgs.len(), 0);
}

#[test]
fn test_lister_mixed_entries() {
    let names = vec![
        String::from("b.png"),
        String::from("a.jpg"),
        String::from("readme.txt"),
        String::from("sub/"),
        String::from("sub/c.JPG"),
    ];
    let imgs = list_images("staged", &names);
    assert_eq!(imgs.len(), 3);
    assert_eq!(imgs[0].origin_path, "staged/b.png");
    assert_eq!(imgs[1].origin_path, "staged/a.jpg");
    assert_eq!(imgs[2].origin_path, "staged/sub/c.JPG");
}

#[test]
fn test_quality_extremes() {
    let input = png_bytes();
    assert!(compress_img(&input, 1).is_ok());
    assert!(compress_img(&input, 100).is_ok());
    // out-of-range values are the codec's to clamp
    assert!(compress_img(&input, 0).is_ok());
}

#[test]
fn test_colliding_stems_share_target() {
    let names = vec![String::from("a.jpg"), String::from("a.png")];
    let imgs = list_images("staged", &names);
    assert_eq!(imgs.len(), 2);
    assert_eq!(imgs[0].output_path, imgs[1].output_path);
}

#[test]
fn test_directory_entries_make_no_descriptor() {
    assert!(matches!(plan_entry("s", "pics.jpg/"), EntryPlan::MakeDir(p) if p == "s/pics.jpg/"));
    assert!(matches!(plan_entry("s", "docs/"), EntryPlan::Skip));
}

#[test]
fn test_counter_reaches_successes_only() {
    let inputs = vec![png_bytes(), vec![1, 2, 3, 4], jpg_bytes()];
    let options = CompressOptions { quality: 80 };
    let mut counter = CompletionCounter::new();
    let r = compress_images_parallel(&inputs, &options, &mut counter);
    assert_eq!(counter.get(), 2);
    match r {
        Err(e) => {
            assert_eq!(e.index, 1);
            assert!(!e.message.is_empty());
        }
        Ok(_) => panic!("a corrupt input must fail the run"),
    }
}

#[test]
fn test_counter_reaches_total_on_success() {
    let inputs = vec![png_bytes(), jpg_bytes()];
    let options = CompressOptions { quality: 80 };
    let mut counter = CompletionCounter::new();
    let r = compress_images_parallel(&inputs, &options, &mut counter);
    assert_eq!(counter.get(), 2);
    let outs = r.expect("all inputs are valid images");
    assert_eq!(outs.len(), 2);
    assert_ne!(outs[0], inputs[0]);
    assert_ne!(outs[1], inputs[1]);
    // the transcoded output is a JPEG stream
    assert_eq!(outs[0][0], 0xFF);
    assert_eq!(outs[0][1], 0xD8);
    assert!(observer_done(counter.get(), 2));
    assert!(!observer_done(1, 2));
}

#[test]
fn test_aggregate_results_policy() {
    let results: Vec<Result<Vec<u8>, String>> = vec![
        Ok(vec![1u8]),
        Err(String::from("bad")),
        Ok(vec![2u8]),
        Err(String::from("worse")),
    ];
    let mut tally = CompletionCounter::new();
    match aggregate_results(results, &mut tally) {
        Err(e) => {
            assert_eq!(e.index, 1);
            assert_eq!(e.message, "bad");
        }
        Ok(_) => panic!("a failed task must fail the aggregate"),
    }
    assert_eq!(tally.get(), 2);

    let results: Vec<Result<Vec<u8>, String>> = vec![Ok(vec![1u8]), Ok(vec![2u8, 3u8])];
    let mut tally = CompletionCounter::new();
    let outs = aggregate_results(results, &mut tally).expect("all tasks succeed");
    assert_eq!(outs, vec![vec![1u8], vec![2u8, 3u8]]);
    assert_eq!(tally.get(), 2);
}

#[test]
fn test_transcode_deterministic() {
    let input = png_bytes();
    let a = compress_img(&input, 80).expect("valid image");
    let b = compress_img(&input, 80).expect("valid image");
    assert_eq!(a, b);
    assert_eq!(a.len(), b.len());
}

#[test]
fn test_empty_document_still_builds() {
    let imgs: Vec<ImgInfo> = Vec::new();
    let data: Vec<Vec<u8>> = Vec::new();
    let bytes = create_epub(&imgs, &data, "empty.epub").expect("empty document builds");
    // a finalized EPUB container is a zip file
    assert_eq!(bytes[0], 0x50);
    assert_eq!(bytes[1], 0x4B);
}

#[test]
fn test_missing_display_name_fails_assembly() {
    let imgs = vec![ImgInfo::build("")];
    let data = vec![Vec::new()];
    match create_epub(&imgs, &data, "out.epub") {
        Err(EpubError::MissingName { index }) => assert_eq!(index, 0),
        _ => panic!("a descriptor without a file name must fail assembly"),
    }
}

#[test]
fn test_end_to_end_in_order() {
    // archive entries: b.png, a.jpg, readme.txt; preserve_order, quality 80
    let names = vec![
        String::from("b.png"),
        String::from("a.jpg"),
        String::from("readme.txt"),
    ];
    let mut imgs = list_images("extracted", &names);
    assert_eq!(imgs.len(), 2);
    order_images(&mut imgs, true);
    assert_eq!(imgs[0].origin_path, "extracted/a.jpg");
    assert_eq!(imgs[1].origin_path, "extracted/b.png");
    let titles: Vec<String> = imgs.iter().map(|i| i.display_name()).collect();
    assert_eq!(titles, vec![String::from("a.jpg"), String::from("b.jpg")]);

    let inputs = vec![jpg_bytes(), png_bytes()];
    let options = CompressOptions { quality: 80 };
    let mut counter = CompletionCounter::new();
    let outs = compress_images_parallel(&inputs, &options, &mut counter)
        .expect("both images transcode");
    assert_eq!(counter.get(), 2);

    let bytes = create_epub(&imgs, &outs, "book.epub").expect("document builds");
    assert_eq!(bytes[0], 0x50);
    assert_eq!(bytes[1], 0x4B);
    assert!(bytes.len() > outs[0].len());
}
