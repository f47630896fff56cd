use wux::commands::info::{format_bytes, format_relative_time, size_unit, DirSummary, SizeUnit};

#[test]
fn summary_tracks_totals_and_extremes() {
    let mut s = DirSummary::new("/work");
    s.add_folder();
    s.add_file("/work/a.txt", 10, 1000);
    s.add_file("/work/sub/b.bin", 300, 500);
    s.add_file("/work/c.log", 300, 2000);
    s.add_file("/work/d", 0, 0);
    assert_eq!(s.total_size, 610);
    assert_eq!(s.file_count, 4);
    assert_eq!(s.folder_count, 1);
    assert_eq!(s.largest_path, "/work/sub/b.bin");
    assert_eq!(s.largest_size, 300);
    assert_eq!(s.newest_path, "/work/c.log");
    assert_eq!(s.newest_time, 2000);
    assert_eq!(s.oldest_path, "/work/sub/b.bin");
    assert_eq!(s.oldest_time, 500);
}

#[test]
fn empty_summary_points_at_start() {
    let s = DirSummary::new("/work");
    assert_eq!(s.total_size, 0);
    assert_eq!(s.largest_path, "/work");
    assert_eq!(s.newest_time, 0);
    assert_eq!(s.oldest_time, u64::MAX);
    assert_eq!(s.oldest_path, "/work");
}

#[test]
fn size_units() {
    assert_eq!(size_unit(0), SizeUnit::B);
    assert_eq!(size_unit(1023), SizeUnit::B);
    assert_eq!(size_unit(1024), SizeUnit::KB);
    assert_eq!(size_unit(1024 * 1024 - 1), SizeUnit::KB);
    assert_eq!(size_unit(1024 * 1024), SizeUnit::MB);
    assert_eq!(size_unit(1024 * 1024 * 1024), SizeUnit::GB);
    assert_eq!(size_unit(u64::MAX), SizeUnit::GB);
    assert_eq!(SizeUnit::MB.divisor(), 1048576);
    assert_eq!(SizeUnit::GB.label(), "GB");
    assert_eq!(format_bytes(512), "512 B");
    assert_eq!(format_bytes(0), "0 B");
}

#[test]
fn relative_times() {
    let now = 1_000_000_000;
    assert_eq!(format_relative_time(now, now), "just now");
    assert_eq!(format_relative_time(now, now - 59), "just now");
    assert_eq!(format_relative_time(now, now + 500), "just now");
    assert_eq!(format_relative_time(now, now - 60), "1 minute ago");
    assert_eq!(format_relative_time(now, now - 120), "2 minutes ago");
    assert_eq!(format_relative_time(now, now - 3600), "1 hour ago");
    assert_eq!(format_relative_time(now, now - 2 * 86400), "2 days ago");
    assert_eq!(format_relative_time(now, now - 30 * 86400), "1 month ago");
    assert_eq!(format_relative_time(now, now - 365 * 86400), "1 year ago");
    assert_eq!(format_relative_time(now, now - 359 * 86400), "11 months ago");
    assert_eq!(format_relative_time(now, now - 360 * 86400), "1 year ago");
    assert_eq!(format_relative_time(now, now - 3 * 360 * 86400), "3 years ago");
}
