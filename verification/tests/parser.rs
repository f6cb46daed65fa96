use raycaster::parser::{attr, find, parse_map, scan_points};
use std::io::Write;

const MAP_XML: &str = "<?xml version=\"1.0\"?><geogebra><construction>\
<element type=\"point\" label=\"A\"><show object=\"true\"/>\
<coords x=\"200\" y=\"100\" z=\"1\"/></element>\
<element type=\"numeric\" label=\"n\"><value val=\"3\"/></element>\
<element type=\"point\" label=\"B\"><coords x=\"250.5\" y=\"-200\"/></element>\
</construction></geogebra>";

#[test]
fn scan_points_extracts_point_elements() {
    let xml: Vec<u8> = MAP_XML.as_bytes().to_vec();
    let points = scan_points(&xml);
    assert_eq!(points.len(), 2);
    assert_eq!(points[0].label, b"A".to_vec());
    assert_eq!(points[0].x_text, b"200".to_vec());
    assert_eq!(points[0].y_text, b"100".to_vec());
    assert_eq!(points[1].label, b"B".to_vec());
    assert_eq!(points[1].x_text, b"250.5".to_vec());
    assert_eq!(points[1].y_text, b"-200".to_vec());
}

#[test]
fn scan_points_skips_other_elements() {
    let xml: Vec<u8> = b"<element type=\"numeric\" label=\"n\"><value val=\"3\"/></element>"
        .to_vec();
    let points = scan_points(&xml);
    assert!(points.is_empty());
}

#[test]
fn scan_points_drops_truncated_point() {
    // a point element with no coordinates ends the scan without a crash
    let xml: Vec<u8> = b"<element type=\"point\" label=\"A\"></element>".to_vec();
    let points = scan_points(&xml);
    assert!(points.is_empty());
}

#[test]
fn find_locates_first_occurrence() {
    let hay: Vec<u8> = b"abcabc".to_vec();
    let needle: Vec<u8> = b"bc".to_vec();
    assert_eq!(find(&hay, 0, &needle), Some(1));
    assert_eq!(find(&hay, 2, &needle), Some(4));
    assert_eq!(find(&hay, 5, &needle), None);
    let missing: Vec<u8> = b"xyz".to_vec();
    assert_eq!(find(&hay, 0, &missing), None);
}

#[test]
fn attr_reads_quoted_value() {
    let tag: Vec<u8> = b"<element type=\"point\" label=\"P1\">".to_vec();
    let key: Vec<u8> = b"label=\"".to_vec();
    let value = attr(&tag, 0, tag.len(), &key);
    assert_eq!(value, b"P1".to_vec());
    let absent: Vec<u8> = b"colour=\"".to_vec();
    assert_eq!(attr(&tag, 0, tag.len(), &absent), Vec::<u8>::new());
}

fn ggb_archive(xml: &str) -> Vec<u8> {
    let mut writer = zip::ZipWriter::new(std::io::Cursor::new(Vec::new()));
    let options = zip::write::SimpleFileOptions::default();
    writer.start_file("geogebra.xml", options).unwrap();
    writer.write_all(xml.as_bytes()).unwrap();
    writer.finish().unwrap().into_inner()
}

#[test]
fn parse_map_reads_archive() {
    let bytes = ggb_archive(MAP_XML);
    let points = parse_map(&bytes).expect("a valid archive parses");
    assert_eq!(points.len(), 2);
    assert_eq!(points[0].label, b"A".to_vec());
    assert_eq!(points[1].x_text, b"250.5".to_vec());
}

#[test]
fn parse_map_rejects_junk() {
    let bytes: Vec<u8> = b"this is not an archive".to_vec();
    assert!(parse_map(&bytes).is_none());
}

#[test]
fn parse_map_needs_the_geometry_member() {
    let mut writer = zip::ZipWriter::new(std::io::Cursor::new(Vec::new()));
    let options = zip::write::SimpleFileOptions::default();
    writer.start_file("other.xml", options).unwrap();
    writer.write_all(b"<x/>").unwrap();
    let bytes = writer.finish().unwrap().into_inner();
    assert!(parse_map(&bytes).is_none());
}
