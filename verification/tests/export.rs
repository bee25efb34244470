use rayshot::capture::Frame;
use rayshot::export::{
    cleanup_old, cropped_image, finished_image, is_image, load_last_selection, readback, save_last_selection,
    save_to_pictures, save_to_scratch, selection_fields, selection_text, timestamped_filename, to_png_bytes, unique_path, unpad_rows, Entry,
    ExportError, LocalTime, Readback, Rendering, SCRATCH_MAX_AGE,
};
use rayshot::geometry::{Coord, Pos, Rect, Size};

fn c(v: f32) -> Coord {
    Coord { bits: v.to_bits() }
}

fn size(w: f32, h: f32) -> Size {
    Size { w: c(w), h: c(h) }
}

/// A frame whose pixels are numbered.
fn numbered(width: u32, height: u32) -> Frame {
    let rgba = (0..width * height).flat_map(|i| [i as u8, 1, 2, 3]).collect();
    Frame { width, height, rgba }
}

fn values(fields: &[&str]) -> Vec<Option<Coord>> {
    fields.iter().map(|f| f.parse::<f32>().ok().map(c)).collect()
}

#[test]
fn a_day_is_kept() {
    assert_eq!(SCRATCH_MAX_AGE, std::time::Duration::from_secs(24 * 60 * 60).as_nanos());
}

#[test]
fn only_old_files_are_removed() {
    let file = |age| Entry { is_file: true, age };
    let entries = vec![
        file(Some(11)),
        file(Some(10)),
        Entry { is_file: false, age: Some(99) },
        file(None),
        file(Some(12)),
    ];
    assert_eq!(cleanup_old(&entries, 10), vec![0, 4]);
    assert!(cleanup_old(&vec![], 10).is_empty());
}

#[test]
fn file_names_hold_the_time() {
    let t = LocalTime { mday: 5, mon: 0, year: 126, hour: 7, min: 8, sec: 59 };
    assert_eq!(timestamped_filename(t), "rayshot-05-01-2026-07-08-59.png");
    let t = LocalTime { mday: 31, mon: 11, year: -1900, hour: 23, min: 0, sec: 60 };
    assert_eq!(timestamped_filename(t), "rayshot-31-12-0000-23-00-60.png");
}

/// The name that is chosen in `/d` where the given names are taken.
fn chosen(name: &str, taken: &[&str]) -> String {
    let dir = b"/d".to_vec();
    let path = unique_path(&dir, name, |p: &Vec<u8>| {
        let full = String::from_utf8(p.clone()).unwrap();
        taken.contains(&full.strip_prefix("/d/").unwrap())
    });
    let path = String::from_utf8(path).unwrap();
    path.strip_prefix("/d/").unwrap().to_string()
}

#[test]
fn first_free_name_is_taken() {
    assert_eq!(chosen("a.png", &[]), "a.png");
    assert_eq!(chosen("a.png", &["a.png"]), "a-2.png");
    assert_eq!(chosen("a.png", &["a.png", "a-2.png", "a-3.png"]), "a-4.png");
    assert_eq!(chosen("b", &["b"]), "b-2.png");
    assert_eq!(chosen(".png", &[".png"]), "-2.png");
}

#[test]
fn names_run_out_at_a_thousand() {
    let dir = b"/d".to_vec();
    let last = b"/d/a-999.png".to_vec();
    assert_eq!(unique_path(&dir, "a.png", |p: &Vec<u8>| *p != last), last);
    let beyond = b"/d/a-1000.png".to_vec();
    assert_eq!(unique_path(&dir, "a.png", |p: &Vec<u8>| *p != beyond), b"/d/a.png".to_vec());
}

#[test]
fn tried_names_are_distinct() {
    let asked = std::cell::RefCell::new(std::collections::BTreeSet::new());
    let dir = b"/d".to_vec();
    unique_path(&dir, "a.png", |p: &Vec<u8>| {
        asked.borrow_mut().insert(p.clone());
        true
    });
    assert_eq!(asked.borrow().len(), 999);
}

#[test]
fn screenshots_are_kept_and_saved() {
    let t = LocalTime { mday: 1, mon: 1, year: 100, hour: 2, min: 3, sec: 4 };
    let (rt, home) = (b"/run".to_vec(), b"/home/a".to_vec());
    let free = |_: &Vec<u8>| false;
    assert_eq!(
        save_to_scratch(Some(&rt), Some(&home), t, free),
        b"/run/rayshot/rayshot-01-02-2000-02-03-04.png".to_vec()
    );
    assert_eq!(
        save_to_pictures(Some(&home), true, t, free),
        b"/home/a/Pictures/rayshot-01-02-2000-02-03-04.png".to_vec()
    );
    let first = b"/tmp/rayshot-01-02-2000-02-03-04.png".to_vec();
    assert_eq!(
        save_to_pictures(Some(&home), false, t, |p: &Vec<u8>| *p == first),
        b"/tmp/rayshot-01-02-2000-02-03-04-2.png".to_vec()
    );
}

#[test]
fn png_decodes_to_the_pixels() {
    let f = numbered(3, 2);
    let png = to_png_bytes(&f).unwrap();
    assert_eq!(&png[..8], b"\x89PNG\r\n\x1a\n");
    let img = image::load_from_memory(&png).unwrap().to_rgba8();
    assert_eq!((img.width(), img.height()), (3, 2));
    assert_eq!(img.into_raw(), f.rgba);
    assert_eq!(to_png_bytes(&f).unwrap(), png);
}

#[test]
fn images_that_cannot_be_encoded() {
    let short = Frame { width: 2, height: 2, rgba: vec![0; 15] };
    assert_eq!(to_png_bytes(&short).err(), Some(ExportError::SizeMismatch));
    let blank = Frame { width: 0, height: 2, rgba: vec![] };
    assert_eq!(to_png_bytes(&blank).err(), Some(ExportError::Encode));
}

#[test]
fn crops_take_the_inner_pixels() {
    let f = cropped_image(&numbered(4, 3), 1, 1, 3, 3).unwrap();
    assert_eq!((f.width, f.height), (2, 2));
    let first: Vec<u8> = f.rgba.iter().step_by(4).cloned().collect();
    assert_eq!(first, vec![5, 6, 9, 10]);
}

#[test]
fn crops_stay_in_the_frame() {
    let f = cropped_image(&numbered(4, 3), 3, 2, 100, 100).unwrap();
    assert_eq!((f.width, f.height, f.rgba), (1, 1, vec![11, 1, 2, 3]));
    let f = cropped_image(&numbered(4, 3), 9, 1, 10, 2).unwrap();
    assert_eq!((f.width, f.height, f.rgba.len()), (0, 1, 0));
}

#[test]
fn whole_crop_is_the_frame() {
    let full = numbered(4, 3);
    let f = cropped_image(&full, 0, 0, 4, 3).unwrap();
    assert_eq!((f.width, f.height, f.rgba), (4, 3, full.rgba));
}

#[test]
fn empty_crops_are_refused() {
    assert!(cropped_image(&numbered(4, 3), 2, 0, 2, 3).is_none());
    assert!(cropped_image(&numbered(4, 3), 0, 2, 4, 1).is_none());
    let short = Frame { width: 2, height: 2, rgba: vec![0; 15] };
    assert!(cropped_image(&short, 0, 0, 1, 1).is_none());
}

#[test]
fn last_selection_needs_four_numbers() {
    let text = " 1.5,2,30,40\n";
    let fields = selection_fields(text);
    assert_eq!(fields, vec!["1.5", "2", "30", "40"]);
    let parsed: Vec<Option<Coord>> = fields.iter().map(|f| f.parse::<f32>().ok().map(c)).collect();
    let (pos, s) = load_last_selection(&parsed).unwrap();
    assert_eq!((pos, s), (Pos { x: c(1.5), y: c(2.0) }, size(30.0, 40.0)));
    assert!(load_last_selection(&values(&["1", "2", "3"])).is_none());
    assert!(load_last_selection(&values(&["1", "2", "3", "4", "5"])).is_none());
    assert!(load_last_selection(&values(&["x", "1", "2", "3", "4"])).is_some());
}

#[test]
fn written_selections_read_back() {
    let numbers = [1.5f32, -0.0, 0.1, 3.4e38];
    let t: Vec<String> = numbers.iter().map(|n| n.to_string()).collect();
    let text = selection_text(&t[0], &t[1], &t[2], &t[3]);
    assert_eq!(selection_text("1.5", "-0", "0.1", "7"), "1.5,-0,0.1,7");
    assert_eq!(selection_fields(&text), t);
    let read: Vec<Option<Coord>> =
        selection_fields(&text).iter().map(|f| f.parse::<f32>().ok().map(c)).collect();
    assert_eq!(
        load_last_selection(&read),
        Some((Pos { x: c(1.5), y: c(-0.0) }, size(0.1, 3.4e38)))
    );
    assert_eq!(selection_fields(&selection_text("", "", "", "")), vec![""; 4]);
}

#[test]
fn images_hold_their_pixels() {
    assert!(is_image(&numbered(3, 2)));
    assert!(is_image(&Frame { width: 1, height: 1, rgba: vec![0; 9] }));
    assert!(!is_image(&Frame { width: 2, height: 2, rgba: vec![0; 15] }));
    let no_rows = Frame { width: 0x4000_0000, height: 0, rgba: vec![] };
    let countable = (0x4000_0000usize).checked_mul(4).is_some();
    assert_eq!(is_image(&no_rows), countable);
    let error = if countable { ExportError::Encode } else { ExportError::SizeMismatch };
    assert_eq!(to_png_bytes(&no_rows).err(), Some(error));
}

#[test]
fn last_selection_has_a_size() {
    assert!(load_last_selection(&values(&["1", "2", "0", "4"])).is_none());
    assert!(load_last_selection(&values(&["1", "2", "3", "-4"])).is_none());
    assert!(load_last_selection(&values(&["1", "2", "3", "NaN"])).is_none());
    assert!(load_last_selection(&values(&["-1", "-2", "0.1", "inf"])).is_some());
}

#[test]
fn selections_above_a_pixel_are_saved() {
    let r = Rect { min: Pos { x: c(3.0), y: c(4.0) }, max: Pos { x: c(9.0), y: c(9.0) } };
    assert_eq!(save_last_selection(Some(r), size(6.0, 5.0)), Some((r.min, size(6.0, 5.0))));
    assert_eq!(save_last_selection(Some(r), size(1.0, 5.0)), None);
    assert_eq!(save_last_selection(Some(r), size(6.0, f32::NAN)), None);
    assert_eq!(save_last_selection(None, size(6.0, 5.0)), None);
}

#[test]
fn rows_are_padded_to_the_alignment() {
    assert_eq!(
        readback(3, 2, 256),
        Some(Readback { unpadded: 12, padded: 256, size: 512 })
    );
    assert_eq!(
        readback(64, 3, 256),
        Some(Readback { unpadded: 256, padded: 256, size: 768 })
    );
    assert_eq!(
        readback(65, 1, 256),
        Some(Readback { unpadded: 260, padded: 512, size: 512 })
    );
    assert_eq!(readback(0, 5, 256), None);
    assert_eq!(readback(5, 0, 256), None);
}

#[test]
fn padding_is_removed() {
    let data = [1, 2, 3, 4, 9, 9, 5, 6, 7, 8, 9, 9];
    let f = unpad_rows(&data, 1, 2, 6);
    assert_eq!((f.width, f.height, f.rgba), (1, 2, vec![1, 2, 3, 4, 5, 6, 7, 8]));
    let tight: Vec<u8> = (0..16).collect();
    assert_eq!(unpad_rows(&tight, 2, 2, 8).rgba, tight);
}

#[test]
fn drawn_image_comes_first() {
    let full = numbered(4, 3);
    let drawn = finished_image(Rendering::Image(numbered(1, 1)), &full, Some((0, 0, 4, 3)));
    assert_eq!(drawn.unwrap().rgba, numbered(1, 1).rgba);
    assert!(finished_image(Rendering::Empty, &full, Some((0, 0, 4, 3))).is_none());
}

#[test]
fn failed_drawing_falls_back_to_the_crop() {
    let full = numbered(4, 3);
    let f = finished_image(Rendering::Failed, &full, Some((1, 0, 2, 1))).unwrap();
    assert_eq!(f.rgba, vec![1, 1, 2, 3]);
    assert!(finished_image(Rendering::Failed, &full, Some((2, 0, 2, 1))).is_none());
    assert!(finished_image(Rendering::Failed, &full, None).is_none());
}
