use giflibrary::limits::RateWindow;
use giflibrary::listing::{keep_last, next_listing_step, page_window, sort_newest_first, ListingStep};
use giflibrary::media::{
    conversion_plan, is_allowed_content_type, is_animated, new_object_key, stored_media,
    temp_input_path, temp_output_path, ConversionPlan,
};
use giflibrary::store::{
    approve_suggestion, delete_tags, queue_suggestion, reject_suggestion, set_tags, update_tags,
    KeyedStore, Suggestion, SuggestionQueue, TagTable,
};
use giflibrary::submit::{
    admit_suggestion, admit_troll_report, admit_upload, check_suggestion, check_upload,
    client_address, is_admin, is_hidden, parse_manual_tags, parse_suggestion_tags,
    parse_upload_tags, sender_name, suggestion_queue_full, troll_key, troll_payload,
    SubmissionError, SuggestionRefusal, ONE_HOUR_NANOS,
};

fn s(v: &[&str]) -> Vec<String> {
    v.iter().map(|x| x.to_string()).collect()
}

#[test]
fn rate_window_accepts_up_to_the_limit_per_window() {
    let mut w = RateWindow::new();
    for i in 0..3u64 {
        assert!(w.try_record(i, 10, 3));
    }
    assert!(!w.try_record(5, 10, 3));
    assert_eq!(w.len(), 3);
    // At time 10 the request of time 0 has aged out.
    assert!(w.try_record(10, 10, 3));
    assert_eq!(w.len(), 3);
}

#[test]
fn global_upload_limit_is_fifty_per_hour() {
    let mut w = RateWindow::new();
    for i in 0..50u64 {
        assert!(admit_upload(&mut w, i));
    }
    assert!(!admit_upload(&mut w, 50));
    assert!(admit_upload(&mut w, ONE_HOUR_NANOS));
}

#[test]
fn suggestions_are_limited_per_address_first() {
    let mut per = RateWindow::new();
    let mut global = RateWindow::new();
    for i in 0..5u64 {
        assert_eq!(admit_suggestion(&mut per, &mut global, i), Ok(()));
    }
    assert_eq!(
        admit_suggestion(&mut per, &mut global, 6),
        Err(SuggestionRefusal::TooManyFromAddress)
    );
    assert_eq!(global.len(), 5);
    let mut full = RateWindow::new();
    for i in 0..50u64 {
        assert!(admit_upload(&mut full, i));
    }
    let mut fresh = RateWindow::new();
    assert_eq!(admit_suggestion(&mut fresh, &mut full, 60), Err(SuggestionRefusal::TooBusy));
    assert_eq!(fresh.len(), 1);
}

#[test]
fn troll_reports_are_limited_to_ten_per_hour() {
    let mut w = RateWindow::new();
    for i in 0..10u64 {
        assert!(admit_troll_report(&mut w, i));
    }
    assert!(!admit_troll_report(&mut w, 11));
    assert_eq!(troll_key("1.2.3.4"), "troll:1.2.3.4");
    assert_eq!(troll_payload(&"x".repeat(500)).chars().count(), 300);
}

#[test]
fn admin_and_client_address() {
    assert!(is_admin(Some("secret"), "secret"));
    assert!(!is_admin(Some("guess"), "secret"));
    assert!(!is_admin(None, "secret"));
    assert_eq!(client_address(Some("9.9.9.9"), Some("1.1.1.1")), "9.9.9.9");
    assert_eq!(client_address(None, Some(" 1.1.1.1 , 2.2.2.2")), "1.1.1.1");
    assert_eq!(client_address(None, None), "unknown");
}

#[test]
fn form_tag_lists() {
    assert_eq!(parse_upload_tags(" Cat, ,DOG ,"), s(&["cat", "dog"]));
    assert_eq!(parse_manual_tags(" Cat, ,DOG ,"), s(&["Cat", "DOG"]));
    let long = "a".repeat(40);
    let text = format!("{},b,c,d,e,f,g,h,i,j,k,l", long);
    let tags = parse_suggestion_tags(&text);
    assert_eq!(tags.len(), 10);
    assert_eq!(tags[0], "a".repeat(30));
    assert_eq!(tags[9], "j");
    assert_eq!(sender_name(&"é".repeat(50)), "é".repeat(40));
}

#[test]
fn submissions_are_checked_in_order() {
    assert_eq!(check_upload(false, "image/gif"), Err(SubmissionError::NoFile));
    assert_eq!(check_upload(true, "text/plain"), Err(SubmissionError::InvalidType));
    assert_eq!(check_upload(true, "video/quicktime"), Ok(()));
    assert_eq!(check_suggestion(true, "image/png", ""), Err(SubmissionError::NameRequired));
    assert_eq!(check_suggestion(false, "text/plain", ""), Err(SubmissionError::NoFile));
    assert_eq!(check_suggestion(true, "image/png", "bob"), Ok(()));
    assert!(is_allowed_content_type("image/webp"));
    assert!(!is_allowed_content_type("image/svg+xml"));
    assert!(suggestion_queue_full(50));
    assert!(!suggestion_queue_full(49));
}

#[test]
fn hidden_tag_in_any_case() {
    assert!(is_hidden(&s(&["cat", "HiDdEn"])));
    assert!(!is_hidden(&s(&["cat", "hide"])));
}

#[test]
fn animation_marker_detection() {
    assert!(is_animated(b"RIFF....WEBPVP8XANIM...."));
    assert!(is_animated(b"ANIM"));
    assert!(!is_animated(b"ANI"));
    assert!(!is_animated(b"RIFF....WEBPVP8 "));
}

#[test]
fn conversion_plans() {
    assert!(matches!(conversion_plan("image/webp", true, "in", "out"), ConversionPlan::CopyAsIs));
    match conversion_plan("image/png", false, "in", "out") {
        ConversionPlan::Ffmpeg(args) => assert_eq!(
            args,
            s(&[
                "-y", "-loop", "1", "-r", "2", "-i", "in", "-c:v", "libwebp", "-lossless", "0",
                "-compression_level", "6", "-q:v", "90", "-vframes", "2", "-loop", "0", "out",
            ])
        ),
        _ => panic!("expected ffmpeg"),
    }
    match conversion_plan("image/gif", true, "in", "out") {
        ConversionPlan::Ffmpeg(args) => assert_eq!(
            args,
            s(&[
                "-y", "-ignore_loop", "0", "-i", "in", "-c:v", "libwebp", "-lossless", "0",
                "-compression_level", "6", "-q:v", "90", "-loop", "0", "out",
            ])
        ),
        _ => panic!("expected ffmpeg"),
    }
    match conversion_plan("video/mp4", false, "in", "out") {
        ConversionPlan::Ffmpeg(args) => assert_eq!(
            args,
            s(&[
                "-y", "-i", "in", "-c:v", "libwebp", "-lossless", "0", "-compression_level", "6",
                "-q:v", "90", "-loop", "0", "-an", "out",
            ])
        ),
        _ => panic!("expected ffmpeg"),
    }
}

#[test]
fn file_names_use_lowercase_hex() {
    assert_eq!(temp_input_path(&[0x00, 0xab, 0x10, 0xff]), "/tmp/in_00ab10ff.tmp");
    assert_eq!(temp_output_path(&[1, 2, 3, 4]), "/tmp/out_01020304.webp");
    assert_eq!(new_object_key(&[0xde, 0xad, 0xbe, 0xef, 0, 1, 2, 3]), "deadbeef00010203.webp");
}

#[test]
fn stored_media_prefers_converted_bytes_and_reads_size() {
    let img = image::RgbImage::new(2, 3);
    let mut png: Vec<u8> = Vec::new();
    img.write_to(&mut std::io::Cursor::new(&mut png), image::ImageFormat::Png).unwrap();
    let m = stored_media(Some(png.clone()), vec![1, 2, 3]);
    assert_eq!(m.data, png);
    assert_eq!(m.size, Some((2, 3)));
    let m = stored_media(None, vec![1, 2, 3]);
    assert_eq!(m.data, vec![1, 2, 3]);
    assert_eq!(m.size, None);
}

#[test]
fn sorting_newest_first_is_stable() {
    let items = vec![(1i64, "a"), (3, "b"), (1, "c"), (3, "d"), (2, "e")];
    let sorted = sort_newest_first(items);
    assert_eq!(sorted, vec![(3, "b"), (3, "d"), (2, "e"), (1, "a"), (1, "c")]);
}

#[test]
fn page_windows() {
    let w = page_window(None, None, 45);
    assert_eq!((w.page, w.limit, w.start, w.end), (1, 20, 0, 20));
    let w = page_window(Some(3), None, 45);
    assert_eq!((w.start, w.end), (40, 45));
    let w = page_window(Some(4), None, 45);
    assert_eq!(w.start, w.end);
    let w = page_window(Some(0), Some(10), 5);
    assert_eq!((w.page, w.start, w.end), (1, 0, 5));
}

#[test]
fn listing_walk_follows_truncation() {
    assert!(matches!(next_listing_step(Some(false), Some("t".to_string())), ListingStep::Done));
    assert!(matches!(next_listing_step(None, None), ListingStep::Done));
    match next_listing_step(Some(true), Some("t".to_string())) {
        ListingStep::Next(Some(t)) => assert_eq!(t, "t"),
        _ => panic!("expected the next page"),
    }
}

#[test]
fn logs_keep_their_last_entries() {
    let mut log: Vec<u32> = (0..1005).collect();
    keep_last(&mut log, 1000);
    assert_eq!(log.len(), 1000);
    assert_eq!(log[0], 5);
    let mut short = vec![1, 2];
    keep_last(&mut short, 1000);
    assert_eq!(short, vec![1, 2]);
}

#[test]
fn tag_table_reads_what_was_written() {
    let mut db: TagTable = KeyedStore::new();
    set_tags(&mut db, "k1".to_string(), s(&["a"]));
    set_tags(&mut db, "k2".to_string(), s(&["b"]));
    set_tags(&mut db, "k1".to_string(), s(&["c"]));
    assert_eq!(db.get("k1"), Some(&s(&["c"])));
    assert_eq!(db.len(), 2);
    update_tags(&mut db, "k2".to_string(), " X, y ,");
    assert_eq!(db.get("k2"), Some(&s(&["X", "y"])));
    delete_tags(&mut db, "k1");
    assert_eq!(db.get("k1"), None);
    assert_eq!(db.len(), 1);
    let db2: TagTable = KeyedStore::from_entries(vec![
        ("a".to_string(), s(&["1"])),
        ("a".to_string(), s(&["2"])),
    ]);
    assert_eq!(db2.len(), 1);
    assert_eq!(db2.get("a"), Some(&s(&["2"])));
}

#[test]
fn approving_moves_a_suggestion_into_the_library() {
    let mut queue: SuggestionQueue = KeyedStore::new();
    let mut db: TagTable = KeyedStore::new();
    queue_suggestion(
        &mut queue,
        "k.webp".to_string(),
        Suggestion { tags: s(&["cat"]), sent_by: "bob".to_string(), date: 7 },
    );
    assert!(approve_suggestion(&mut queue, &mut db, "k.webp"));
    assert_eq!(db.get("k.webp"), Some(&s(&["cat"])));
    assert_eq!(queue.len(), 0);
    assert!(!approve_suggestion(&mut queue, &mut db, "k.webp"));
    assert!(!reject_suggestion(&mut queue, "k.webp"));
}

