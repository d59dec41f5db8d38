use qdrop::history::HistoryRing;

fn png_of(w: u32, h: u32) -> Vec<u8> {
    let img = image::RgbaImage::from_pixel(w, h, image::Rgba([10, 20, 30, 255]));
    let mut out = Vec::new();
    image::DynamicImage::ImageRgba8(img)
        .write_to(&mut std::io::Cursor::new(&mut out), image::ImageFormat::Png)
        .unwrap();
    out
}

#[test]
fn history_image_plan_reads_the_picture_size() {
    let mut h = HistoryRing::from_loaded(Vec::new(), 4);
    let plan = h.plan_image(&png_of(3, 2)).unwrap();
    assert_eq!((plan.w, plan.h), (3, 2));
    assert_eq!(plan.file, "0.png");
    assert_eq!(plan.hash.len(), 64);
}
