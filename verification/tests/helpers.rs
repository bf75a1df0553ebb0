use metaparse::archive::ZipOmit;
use metaparse::sqlite::{canonical_sqlite_declared_type, quote_sql_identifier};
use metaparse::video::{
    extract_bit_depth, extract_chroma_subsampling, extract_scan_type, extract_video_metadata,
    format_codec_level, parse_frame_count, VideoStream,
};

#[test]
fn chroma_subsampling_from_pixel_format() {
    assert_eq!(extract_chroma_subsampling("yuv420p").as_deref(), Some("4:2:0"));
    assert_eq!(extract_chroma_subsampling("yuv422p10le").as_deref(), Some("4:2:2"));
    assert_eq!(extract_chroma_subsampling("yuv444p").as_deref(), Some("4:4:4"));
    assert_eq!(extract_chroma_subsampling("yuv411p").as_deref(), Some("4:1:1"));
    assert_eq!(extract_chroma_subsampling("rgb24"), None);
}

#[test]
fn scan_type_from_field_order() {
    assert_eq!(extract_scan_type("progressive").as_deref(), Some("progressive"));
    assert_eq!(extract_scan_type("tb").as_deref(), Some("interlaced (top field first)"));
    assert_eq!(extract_scan_type("bt").as_deref(), Some("interlaced (bottom field first)"));
    assert_eq!(extract_scan_type("unknown"), None);
}

#[test]
fn bit_depth_from_stream_or_format() {
    assert_eq!(extract_bit_depth(Some("10"), None), Some(10));
    assert_eq!(extract_bit_depth(None, Some("yuv420p10le")), Some(10));
    assert_eq!(extract_bit_depth(Some("abc"), Some("yuv444p12le")), Some(12));
    assert_eq!(extract_bit_depth(None, Some("yuv420p")), Some(8));
    assert_eq!(extract_bit_depth(None, Some("rgb48le")), None);
    assert_eq!(extract_bit_depth(None, None), None);
}

#[test]
fn sqlite_type_affinity() {
    let t = |s: &str| canonical_sqlite_declared_type(Some(&s.to_string()));
    assert_eq!(t("  varchar(20) ").as_deref(), Some("TEXT"));
    assert_eq!(t("BIGINT").as_deref(), Some("INTEGER"));
    assert_eq!(t("point").as_deref(), Some("INTEGER"));
    assert_eq!(t("").as_deref(), Some("BLOB"));
    assert_eq!(t("blob").as_deref(), Some("BLOB"));
    assert_eq!(t("double precision").as_deref(), Some("REAL"));
    assert_eq!(t("decimal(10,2)").as_deref(), Some("NUMERIC"));
    assert_eq!(canonical_sqlite_declared_type(None), None);
}

#[test]
fn sql_identifier_quoting() {
    assert_eq!(quote_sql_identifier("my\"tab"), "\"my\"\"tab\"");
    assert_eq!(quote_sql_identifier("plain"), "\"plain\"");
    assert_eq!(quote_sql_identifier(""), "\"\"");
}

#[test]
fn zip_clutter_is_ignored() {
    assert!(ZipOmit::should_ignore("__MACOSX/a.txt"));
    assert!(ZipOmit::should_ignore("dir/._x"));
    assert!(ZipOmit::should_ignore("docs/~$report.docx"));
    assert!(ZipOmit::should_ignore("a/.ds_store"));
    assert!(ZipOmit::should_ignore("a/thumbs.DB/"));
    assert!(ZipOmit::should_ignore("Desktop.ini"));
    assert!(!ZipOmit::should_ignore("a/b.txt"));
    assert!(!ZipOmit::should_ignore("x/__MACOSX/y"));
    assert!(!ZipOmit::should_ignore(""));
}

fn sample_stream() -> VideoStream {
    VideoStream {
        width: Some(1920),
        height: Some(1080),
        coded_width: Some(1920),
        coded_height: Some(1088),
        has_b_frames: Some(2),
        codec_name: Some("h264".to_string()),
        level: Some(41),
        pix_fmt: Some("yuv420p10le".to_string()),
        bits_per_raw_sample: None,
        color_space: Some("bt709".to_string()),
        display_aspect_ratio: Some("16:9".to_string()),
        sample_aspect_ratio: Some("1:1".to_string()),
        field_order: Some("tt".to_string()),
        nb_frames: Some("1440".to_string()),
    }
}

#[test]
fn video_properties_from_stream() {
    let s = sample_stream();
    let p = extract_video_metadata(Some(&s), 123456);
    assert_eq!((p.width, p.height), (1920, 1080));
    assert_eq!(p.coded_height, Some(1088));
    assert_eq!(p.has_b_frames, Some(true));
    assert_eq!(p.video_codec.as_deref(), Some("h264"));
    assert_eq!(p.video_codec_level.as_deref(), Some("4.1"));
    assert_eq!(p.bit_depth, Some(10));
    assert_eq!(p.chroma_subsampling.as_deref(), Some("4:2:0"));
    assert_eq!(p.scan_type.as_deref(), Some("interlaced (top field first)"));
    assert_eq!(p.frame_count, Some(1440));
    assert_eq!(p.stream_size, Some(123456));
}

#[test]
fn video_properties_without_stream_or_height() {
    let p = extract_video_metadata(None, 7);
    assert_eq!((p.width, p.height), (0, 0));
    assert_eq!(p.video_codec, None);
    assert_eq!(p.stream_size, Some(7));
    let mut s = sample_stream();
    s.height = None;
    s.has_b_frames = Some(0);
    let q = extract_video_metadata(Some(&s), 7);
    assert_eq!((q.width, q.height), (0, 0));
    assert_eq!(q.has_b_frames, Some(false));
}

#[test]
fn codec_level_and_frame_count_text() {
    assert_eq!(format_codec_level(40), "4.0");
    assert_eq!(format_codec_level(5), "0.5");
    assert_eq!(format_codec_level(-99), "-9.-9");
    assert_eq!(format_codec_level(-5), "0.-5");
    assert_eq!(parse_frame_count("+12"), Some(12));
    assert_eq!(parse_frame_count("N/A"), None);
    assert_eq!(parse_frame_count("18446744073709551616"), None);
    assert_eq!(parse_frame_count("18446744073709551615"), Some(u64::MAX));
}
