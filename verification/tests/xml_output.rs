use gpscan::output_xml_header;
use gpscan::xml_output::{
    format_system_time, formatted_or_epoch, size_measure_label, FileRecord, DirectoryRecord,
    XmlEmitter, DEFAULT_DATETIME, GRANDPERSPECTIVE_APP_VERSION, GRANDPERSPECTIVE_FORMAT_VERSION,
    TAG_FILE, TAG_FOLDER, TAG_GRANDPERSPECTIVE_SCAN_DUMP, TAG_SCAN_INFO, XML_ENCODING, XML_VERSION,
};

fn text(emitter: &mut XmlEmitter) -> String {
    String::from_utf8(emitter.take_output()).unwrap()
}

fn folder(name: &str) -> DirectoryRecord {
    DirectoryRecord {
        name: name.to_string(),
        created: "c".to_string(),
        modified: "m".to_string(),
        accessed: "a".to_string(),
    }
}

fn file(name: &str, size: u64) -> FileRecord {
    FileRecord {
        name: name.to_string(),
        size,
        created: "c".to_string(),
        modified: "m".to_string(),
        accessed: "a".to_string(),
        inode: 9,
    }
}

#[test]
fn test_format_system_time_valid() {
    // 2021-01-01 00:00:00 UTC
    let result = format_system_time(Some(1609459200));
    assert_eq!(result, "2021-01-01T00:00:00Z");
}

#[test]
fn test_format_system_time_error() {
    let result = format_system_time(None);
    assert_eq!(result, DEFAULT_DATETIME);
}

#[test]
fn test_output_xml_header() {
    let mut writer = XmlEmitter::new();

    output_xml_header(&mut writer);

    let output = text(&mut writer);
    assert!(output.contains(r#"<?xml version="1.0" encoding="UTF-8"?>"#));
    assert!(output.contains(r#"<GrandPerspectiveScanDump"#));
    assert!(output.contains(r#"appVersion="4""#));
    assert!(output.contains(r#"formatVersion="7""#));
}

#[test]
fn test_constants() {
    assert_eq!(GRANDPERSPECTIVE_APP_VERSION, "4");
    assert_eq!(GRANDPERSPECTIVE_FORMAT_VERSION, "7");
    assert_eq!(XML_VERSION, "1.0");
    assert_eq!(XML_ENCODING, "UTF-8");
    assert_eq!(DEFAULT_DATETIME, "1970-01-01T00:00:00Z");
    assert_eq!(TAG_SCAN_INFO, "ScanInfo");
    assert_eq!(TAG_GRANDPERSPECTIVE_SCAN_DUMP, "GrandPerspectiveScanDump");
    assert_eq!(TAG_FOLDER, "Folder");
    assert_eq!(TAG_FILE, "File");
}

#[test]
fn header_is_the_declaration_and_the_root_start_tag() {
    let mut writer = XmlEmitter::new();
    output_xml_header(&mut writer);
    assert_eq!(
        text(&mut writer),
        "<?xml version=\"1.0\" encoding=\"UTF-8\"?>\n\
<GrandPerspectiveScanDump appVersion=\"4\" formatVersion=\"7\">"
    );
    assert_eq!(writer.depth(), 1);
}

#[test]
fn times_are_formatted_in_utc() {
    assert_eq!(format_system_time(Some(0)), "1970-01-01T00:00:00Z");
    assert_eq!(format_system_time(Some(-1)), "1969-12-31T23:59:59Z");
    assert_eq!(format_system_time(Some(951782400)), "2000-02-29T00:00:00Z");
    assert_eq!(format_system_time(Some(1709251199)), "2024-02-29T23:59:59Z");
    assert_eq!(format_system_time(Some(253402300799)), "9999-12-31T23:59:59Z");
}

#[test]
fn times_beyond_the_calendar_give_the_epoch() {
    assert_eq!(format_system_time(Some(i64::MAX)), DEFAULT_DATETIME);
    assert_eq!(format_system_time(Some(i64::MIN)), DEFAULT_DATETIME);
}

#[test]
fn a_missing_formatted_time_gives_the_epoch() {
    assert_eq!(formatted_or_epoch(None), DEFAULT_DATETIME);
    assert_eq!(formatted_or_epoch(Some("2001-02-03T04:05:06Z".to_string())), "2001-02-03T04:05:06Z");
}

#[test]
fn size_measure_labels() {
    assert_eq!(size_measure_label(true), "logical");
    assert_eq!(size_measure_label(false), "physical");
}

#[test]
fn scan_info_shows_its_attributes_in_order() {
    let mut writer = XmlEmitter::new();
    writer.open_scan_info("/mnt/a&b", 1000, 250, "2021-01-01T00:00:00Z", true);
    assert_eq!(
        text(&mut writer),
        "<ScanInfo volumePath=\"/mnt/a&amp;b\" volumeSize=\"1000\" freeSpace=\"250\" \
scanTime=\"2021-01-01T00:00:00Z\" fileSizeMeasure=\"logical\">"
    );
}

#[test]
fn a_folder_is_written_with_its_first_file() {
    let mut writer = XmlEmitter::new();
    writer.open_folder(folder("outer"));
    writer.open_folder(folder("inner"));
    assert_eq!(text(&mut writer), "");
    assert_eq!(writer.depth(), 2);
    writer.write_file(&file("f", 18446744073709551615));
    assert_eq!(
        text(&mut writer),
        "<Folder name=\"outer\" created=\"c\" modified=\"m\" accessed=\"a\">\n \
<Folder name=\"inner\" created=\"c\" modified=\"m\" accessed=\"a\">\n  \
<File name=\"f\" size=\"18446744073709551615\" created=\"c\" modified=\"m\" accessed=\"a\"/>"
    );
    writer.close_folder(false);
    writer.close_folder(false);
    assert_eq!(text(&mut writer), "\n </Folder>\n</Folder>");
    assert_eq!(writer.depth(), 0);
}

#[test]
fn a_folder_without_content_is_dropped_or_kept() {
    let mut writer = XmlEmitter::new();
    writer.open_folder(folder("outer"));
    writer.open_folder(folder("inner"));
    writer.close_folder(false);
    assert_eq!(text(&mut writer), "");
    assert_eq!(writer.depth(), 1);
    writer.open_folder(folder("kept"));
    writer.close_folder(true);
    assert_eq!(
        text(&mut writer),
        "<Folder name=\"outer\" created=\"c\" modified=\"m\" accessed=\"a\">\n \
<Folder name=\"kept\" created=\"c\" modified=\"m\" accessed=\"a\">\n </Folder>"
    );
    writer.close_folder(false);
    assert_eq!(text(&mut writer), "\n</Folder>");
}

#[test]
fn every_attribute_value_is_escaped_once() {
    let mut writer = XmlEmitter::new();
    let record = FileRecord {
        name: "a&amp;b".to_string(),
        size: 0,
        created: "<".to_string(),
        modified: "\"".to_string(),
        accessed: "\r\n".to_string(),
        inode: 0,
    };
    writer.write_file(&record);
    assert_eq!(
        text(&mut writer),
        "<File name=\"a&amp;amp;b\" size=\"0\" created=\"&lt;\" modified=\"&quot;\" accessed=\"\r\n\"/>"
    );
}

#[test]
fn the_document_ends_with_the_root_and_a_line_feed() {
    let mut writer = XmlEmitter::new();
    output_xml_header(&mut writer);
    writer.open_scan_info("/", 0, 0, "t", false);
    let _ = writer.take_output();
    writer.close_scan_info();
    writer.close_root();
    assert_eq!(text(&mut writer), "\n </ScanInfo>\n</GrandPerspectiveScanDump>\n");
    assert_eq!(text(&mut writer), "");
}
