use rex::carve::carve_entry;
use rex::scanner::{
    probe_window, scan_image, CarveResult, Directive, ScanPhase, Scanner, CARVE_BLOCK,
    MISS_STRIDE, RESERVED_AREA, WINDOW_SIZE,
};
use rex::session::RecoverySession;

const PNG_MAGIC: [u8; 8] = [0x89, 0x50, 0x4E, 0x47, 0x0D, 0x0A, 0x1A, 0x0A];
const JPEG_MAGIC: [u8; 4] = [0xFF, 0xD8, 0xFF, 0xE0];
const MIB: usize = 1024 * 1024;

fn blank(len: usize) -> Vec<u8> {
    vec![0u8; len]
}

fn place(image: &mut [u8], offset: usize, magic: &[u8]) {
    image[offset..offset + magic.len()].copy_from_slice(magic);
    // A recognisable trail after the magic, so that carved bytes can be
    // told apart.
    let tag = (offset as u64).to_le_bytes();
    image[offset + 16..offset + 24].copy_from_slice(&tag);
}

fn session(all: bool, only_deleted: bool) -> RecoverySession {
    RecoverySession::new("run".to_string(), all, only_deleted)
}

fn offsets(carves: &[CarveResult]) -> Vec<u64> {
    carves.iter().map(|c| c.offset).collect()
}

#[test]
fn probe_finds_the_first_signature_of_a_window() {
    let mut window = blank(WINDOW_SIZE);
    place(&mut window, 128, &PNG_MAGIC);
    place(&mut window, 1024, &JPEG_MAGIC);
    let hit = probe_window(&window, 0, false).expect("a hit");
    assert_eq!(hit.slide, 128);
    assert_eq!(hit.extension, "png");
}

#[test]
fn probe_only_looks_at_every_64th_byte() {
    let mut window = blank(WINDOW_SIZE);
    place(&mut window, 100, &PNG_MAGIC);
    assert!(probe_window(&window, 0, false).is_none());
}

#[test]
fn probe_needs_more_than_32_bytes_after_the_position() {
    // Position 64 of a window of 96 bytes leaves 32 bytes, too few for the detector.
    let mut window = blank(96);
    place(&mut window, 64, &PNG_MAGIC);
    assert!(probe_window(&window, 0, false).is_none());
    // One byte more and it is.
    let mut window = blank(97);
    place(&mut window, 64, &PNG_MAGIC);
    let hit = probe_window(&window, 0, false).expect("a hit");
    assert_eq!(hit.slide, 64);
}

#[test]
fn probe_of_short_or_empty_windows_finds_nothing() {
    assert!(probe_window(&[], 0, false).is_none());
    let mut window = blank(32);
    window[..8].copy_from_slice(&PNG_MAGIC);
    assert!(probe_window(&window, 0, false).is_none());
}

#[test]
fn probe_skips_hits_in_the_reserved_area_and_goes_on() {
    let mut window = blank(WINDOW_SIZE);
    place(&mut window, 0, &PNG_MAGIC);
    place(&mut window, 4096, &JPEG_MAGIC);
    // The window ends where the reserved area ends: both hits are dropped.
    assert!(probe_window(&window, RESERVED_AREA - WINDOW_SIZE as u64, true).is_none());
    // The reserved area ends at position 4096 of this window.
    let hit = probe_window(&window, RESERVED_AREA - 4096, true).expect("a hit");
    assert_eq!(hit.slide, 4096);
    assert_eq!(hit.extension, "jpg");
    // Without the filter the first one wins.
    let hit = probe_window(&window, RESERVED_AREA - 4096, false).expect("a hit");
    assert_eq!(hit.slide, 0);
}

#[test]
fn probe_near_the_end_of_the_offset_space_does_not_overflow() {
    let mut window = blank(WINDOW_SIZE);
    place(&mut window, 64, &PNG_MAGIC);
    let hit = probe_window(&window, u64::MAX - 10, true).expect("a hit");
    assert_eq!(hit.slide, 64);
}

#[test]
fn scanner_starts_by_asking_for_the_first_window() {
    let scanner = Scanner::new(session(false, false));
    assert_eq!(scanner.cursor(), 0);
    assert!(matches!(scanner.phase(), ScanPhase::Scanning));
    assert!(matches!(scanner.directive(), Directive::ReadWindow { offset: 0 }));
}

#[test]
fn short_read_ends_the_scan() {
    let mut scanner = Scanner::new(session(true, false));
    let mut window = blank(WINDOW_SIZE - 1);
    place(&mut window, 0, &PNG_MAGIC);
    assert!(matches!(scanner.window_read(&window), Directive::Finish));
    assert!(matches!(scanner.phase(), ScanPhase::Done));
    assert_eq!(scanner.session().carved(), 0);

    let mut scanner = Scanner::new(session(true, false));
    assert!(matches!(scanner.window_read(&[]), Directive::Finish));
}

#[test]
fn window_without_signature_moves_the_cursor_by_512() {
    let mut scanner = Scanner::new(session(false, false));
    let window = blank(WINDOW_SIZE);
    match scanner.window_read(&window) {
        Directive::ReadWindow { offset } => assert_eq!(offset, MISS_STRIDE),
        _ => panic!("expected another read"),
    }
    assert_eq!(scanner.cursor(), 512);
    match scanner.window_read(&window) {
        Directive::ReadWindow { offset } => assert_eq!(offset, 1024),
        _ => panic!("expected another read"),
    }
}

#[test]
fn hit_is_carved_and_the_cursor_jumps_one_block_past_it() {
    let mut scanner = Scanner::new(session(false, false));
    let zeros = blank(WINDOW_SIZE);
    scanner.window_read(&zeros);
    let mut window = blank(WINDOW_SIZE);
    place(&mut window, 192, &PNG_MAGIC);
    match scanner.window_read(&window) {
        Directive::Carve { offset, extension, path } => {
            assert_eq!(offset, 512 + 192);
            assert_eq!(extension, "png");
            assert_eq!(path, "recovered/run/file_0_704.png");
        }
        _ => panic!("expected a carve"),
    }
    assert!(matches!(scanner.phase(), ScanPhase::Carving { offset: 704, extension: "png" }));
    // The cursor has not moved yet, and nothing is counted yet.
    assert_eq!(scanner.cursor(), 512);
    assert_eq!(scanner.session().carved(), 0);
    match scanner.carve_finished(true) {
        Directive::ReadWindow { offset } => assert_eq!(offset, 704 + CARVE_BLOCK),
        _ => panic!("expected another read"),
    }
    assert_eq!(scanner.cursor(), 704 + 1_048_576);
    assert_eq!(scanner.session().carved(), 1);
}

#[test]
fn carve_that_could_not_be_written_is_not_counted_and_the_scan_goes_on() {
    let mut scanner = Scanner::new(session(false, false));
    let mut window = blank(WINDOW_SIZE);
    place(&mut window, 0, &PNG_MAGIC);
    assert!(matches!(scanner.window_read(&window), Directive::Carve { offset: 0, .. }));
    match scanner.carve_finished(false) {
        Directive::ReadWindow { offset } => assert_eq!(offset, CARVE_BLOCK),
        _ => panic!("expected another read"),
    }
    assert_eq!(scanner.session().carved(), 0);
    // The next file still gets the number that the failed one would have had.
    match scanner.window_read(&window) {
        Directive::Carve { offset, path, .. } => {
            assert_eq!(offset, CARVE_BLOCK);
            assert_eq!(path, "recovered/run/file_0_1048576.png");
        }
        _ => panic!("expected a carve"),
    }
}

#[test]
fn tenth_carve_ends_the_scan_unless_all_is_set() {
    let mut window = blank(WINDOW_SIZE);
    place(&mut window, 0, &PNG_MAGIC);

    let mut capped = Scanner::new(session(false, false));
    for n in 0..10u64 {
        assert!(matches!(capped.phase(), ScanPhase::Scanning), "before carve {}", n);
        assert!(matches!(capped.window_read(&window), Directive::Carve { .. }));
        capped.carve_finished(true);
    }
    assert!(matches!(capped.phase(), ScanPhase::Done));
    assert!(matches!(capped.directive(), Directive::Finish));
    assert_eq!(capped.session().carved(), 10);
    assert_eq!(capped.into_session().carved(), 10);

    let mut open = Scanner::new(session(true, false));
    for _ in 0..12 {
        assert!(matches!(open.window_read(&window), Directive::Carve { .. }));
        open.carve_finished(true);
    }
    assert!(matches!(open.phase(), ScanPhase::Scanning));
    assert_eq!(open.session().carved(), 12);
}

#[test]
fn signatures_more_than_a_block_apart_are_all_carved() {
    let first = 0usize;
    let second = MIB + 4096;
    let third = 2 * MIB + 4096 + 20_480;
    let mut image = blank(third + 5000);
    place(&mut image, first, &PNG_MAGIC);
    place(&mut image, second, &JPEG_MAGIC);
    place(&mut image, third, &PNG_MAGIC);

    let carves = scan_image(&image, session(true, false));
    assert_eq!(carves.len(), 3);
    assert_eq!(offsets(&carves), vec![first as u64, second as u64, third as u64]);
    assert_eq!(carves[0].extension, "png");
    assert_eq!(carves[1].extension, "jpg");
    assert_eq!(carves[2].extension, "png");
    assert_eq!(carves[0].path, "recovered/run/file_0_0.png");
    assert_eq!(carves[1].path, "recovered/run/file_1_1052672.jpg");
    assert_eq!(carves[2].path, format!("recovered/run/file_2_{}.png", third));
    assert_eq!(carves[0].length, MIB);
    assert_eq!(carves[1].length, MIB);
    // The last one is cut short by the end of the image.
    assert_eq!(carves[2].length, 5000);
    for carve in &carves {
        let start = carve.offset as usize;
        let bytes = &image[start..start + carve.length];
        let tag = (carve.offset).to_le_bytes();
        assert_eq!(&bytes[16..24], &tag);
    }
}

#[test]
fn second_of_two_close_signatures_is_skipped() {
    let mut image = blank(MIB + 100);
    place(&mut image, 0, &PNG_MAGIC);
    place(&mut image, 500_032, &JPEG_MAGIC);
    let carves = scan_image(&image, session(true, false));
    assert_eq!(offsets(&carves), vec![0]);
    assert_eq!(carves[0].extension, "png");
    assert_eq!(carves[0].length, MIB);
}

#[test]
fn only_deleted_drops_hits_in_the_reserved_area() {
    let mut image = blank(600_000 + 2000);
    place(&mut image, 1_000, &PNG_MAGIC);
    place(&mut image, 960, &JPEG_MAGIC);
    place(&mut image, 600_000, &PNG_MAGIC);
    let carves = scan_image(&image, session(false, true));
    assert_eq!(offsets(&carves), vec![600_000]);
    assert_eq!(carves[0].extension, "png");
    assert_eq!(carves[0].length, 2000);
    assert_eq!(carves[0].path, "recovered/run/file_0_600000.png");
    assert!(!session(false, true).wants_live_copy());
    assert!(session(false, false).wants_live_copy());
}

#[test]
fn without_only_deleted_the_reserved_area_is_carved() {
    let mut image = blank(20_000);
    place(&mut image, 960, &JPEG_MAGIC);
    let carves = scan_image(&image, session(false, false));
    assert_eq!(offsets(&carves), vec![960]);
    assert_eq!(carves[0].extension, "jpg");
}

fn fifteen_signatures() -> Vec<u8> {
    let step = MIB + 64;
    let mut image = blank(14 * step + MIB);
    for k in 0..15 {
        place(&mut image, k * step, &PNG_MAGIC);
    }
    image
}

#[test]
fn scan_halts_after_the_tenth_file() {
    let image = fifteen_signatures();
    let carves = scan_image(&image, session(false, false));
    assert_eq!(carves.len(), 10);
    let expected: Vec<u64> = (0..10u64).map(|k| k * (1_048_576 + 64)).collect();
    assert_eq!(offsets(&carves), expected);
    assert_eq!(carves[9].path, format!("recovered/run/file_9_{}.png", 9 * (MIB + 64)));
}

#[test]
fn all_lifts_the_cap() {
    let image = fifteen_signatures();
    let carves = scan_image(&image, session(true, false));
    assert_eq!(carves.len(), 15);
    for pair in carves.windows(2) {
        assert!(pair[1].offset >= pair[0].offset + CARVE_BLOCK);
    }
}

#[test]
fn image_shorter_than_a_window_gives_nothing() {
    let mut image = blank(WINDOW_SIZE - 1);
    place(&mut image, 0, &PNG_MAGIC);
    assert!(scan_image(&image, session(true, false)).is_empty());
    assert!(scan_image(&[], session(true, false)).is_empty());
}

#[test]
fn text_is_carved_as_txt() {
    let mut image = blank(WINDOW_SIZE + 100);
    for b in image[4096..].iter_mut() {
        *b = b'a';
    }
    // From position 4096 - 448 on, more than nine tenths of the rest of the
    // window are letters: 4096 of 4544 is more, 4096 of 4608 is not.
    let carves = scan_image(&image, session(true, false));
    assert_eq!(carves.len(), 1);
    assert_eq!(carves[0].offset, 4096 - 448);
    assert_eq!(carves[0].extension, "txt");
}

#[test]
fn two_runs_have_distinct_sessions_and_carve_the_same() {
    let args: Vec<String> =
        ["rex", "carve", "disk.img", "--all"].iter().map(|s| s.to_string()).collect();
    let first = carve_entry(&args).expect("a run");
    let second = carve_entry(&args).expect("a run");
    assert_ne!(first.session.id(), second.session.id());
    assert_ne!(first.session.output_dir(), second.session.output_dir());

    let mut image = blank(MIB + 4096 + 5000);
    place(&mut image, 0, &PNG_MAGIC);
    place(&mut image, MIB + 4096, &JPEG_MAGIC);
    let a = scan_image(&image, first.session);
    let b = scan_image(&image, second.session);
    assert_eq!(a.len(), 2);
    assert_eq!(a.len(), b.len());
    for (x, y) in a.iter().zip(b.iter()) {
        assert_eq!(x.offset, y.offset);
        assert_eq!(x.extension, y.extension);
        assert_eq!(x.length, y.length);
        assert_ne!(x.path, y.path);
        let (xs, ys) = (x.offset as usize, y.offset as usize);
        assert_eq!(&image[xs..xs + x.length], &image[ys..ys + y.length]);
    }
}
