use std::io::Write;
use verseapp::disk_cache::{parse_hex_u64, u64_to_hex, DiskCache, DiskPurge, UsefulCacheEntry, MAX_DISK_BYTES};
use verseapp::docx::{
    body_or_placeholder, docx_page_from_archive, docx_page_html, escape_html, media_entries, extract_attr, image_tag, media_file_name, parse_docx_xml_to_html,
    parse_relationships, DOCX_PAGE_HEAD, DOCX_PAGE_TAIL,
};
use verseapp::memory::{plan_memory_purge, purge_order, TabMemory, TabPurge, INACTIVE_COOLDOWN_SECS};

#[test]
fn escapes_html_specials() {
    assert_eq!(escape_html("a<b>&\"c\"'"), "a&lt;b&gt;&amp;&quot;c&quot;'");
    assert_eq!(escape_html(""), "");
    assert_eq!(escape_html("&amp;"), "&amp;amp;");
    assert_eq!(escape_html("plain text; 1 + 1"), "plain text; 1 + 1");
    assert_ne!(escape_html("&lt;"), escape_html("<"));
    assert!(!escape_html("<p class=\"x\">").contains(['<', '>', '"']));
}

#[test]
fn extracts_attributes() {
    assert_eq!(extract_attr("<Relationship Id=\"rId5\" Target=\"media/a.png\"/>", "Id"), "rId5");
    assert_eq!(extract_attr("<Relationship Id=\"rId5\" Target=\"media/a.png\"/>", "Target"), "media/a.png");
    assert_eq!(extract_attr("Id=rId5", "Id"), "");
    assert_eq!(extract_attr("Id=\"unterminated", "Id"), "");
    assert_eq!(extract_attr("", "Id"), "");
}

#[test]
fn reads_relationships_later_wins() {
    let xml = "<Relationships><Relationship Id=\"rId1\" Target=\"media/one.png\"/>\
               <Relationship Id=\"rId2\" Target=\"styles.xml\"/>\
               <Relationship Id=\"rId1\" Target=\"media/uno.png\"/>\
               <Relationship Target=\"x\"/></Relationships>";
    let rels = parse_relationships(xml);
    assert_eq!(
        rels,
        vec![
            ("rId1".to_string(), "media/uno.png".to_string()),
            ("rId2".to_string(), "styles.xml".to_string()),
        ]
    );
    assert!(parse_relationships("").is_empty());
}

#[test]
fn converts_paragraphs_runs_and_headings() {
    let xml = "<w:document><w:body>\
        <w:p><w:pPr><w:pStyle w:val=\"Heading1\"/></w:pPr><w:r><w:t>Title &amp; more</w:t></w:r></w:p>\
        <w:p><w:r><w:rPr><w:b/><w:i/></w:rPr><w:t>Bold</w:t></w:r><w:r><w:t xml:space=\"preserve\"> plain</w:t></w:r></w:p>\
        <w:p><w:r><w:rPr><w:u w:val=\"single\"/></w:rPr><w:t>x<y</w:t></w:r></w:p>\
        <w:p></w:p>\
        </w:body></w:document>";
    let html = parse_docx_xml_to_html(xml, &Vec::new());
    assert_eq!(
        html,
        "<h1>Title &amp;amp; more</h1>\n<p><i><b>Bold</b></i> plain</p>\n<p><u>x&lt;y</u></p>\n"
    );
}

#[test]
fn second_and_third_level_headings() {
    let xml = "<w:p><w:pStyle w:val=\"heading 2\"/><w:r><w:t>Two</w:t></w:r></w:p>\
               <w:p><w:pStyle w:val=\"Heading3\"/><w:r><w:t>Three</w:t></w:r></w:p>";
    assert_eq!(parse_docx_xml_to_html(xml, &Vec::new()), "<h2>Two</h2>\n<h3>Three</h3>\n");
}

#[test]
fn images_come_from_relationships() {
    let rels = vec![
        ("rId7".to_string(), "media/image1.png".to_string()),
        ("rId8".to_string(), "media/image2.jpeg".to_string()),
    ];
    let xml = "<w:p><w:r><w:drawing><a:blip r:embed=\"rId8\"/></w:drawing></w:r></w:p>";
    assert_eq!(parse_docx_xml_to_html(xml, &rels), "<p><img src=\"image2.jpeg\" /></p>\n");
    let no_drawing = "<w:p><w:r><w:t>see rId7</w:t></w:r></w:p>";
    assert_eq!(parse_docx_xml_to_html(no_drawing, &rels), "<p>see rId7</p>\n");
}

#[test]
fn empty_bodies_get_a_note() {
    assert_eq!(body_or_placeholder(String::new()), "<p><em>Empty Word Document</em></p>");
    assert_eq!(body_or_placeholder(" \n".to_string()), " \n<p><em>Empty Word Document</em></p>");
    assert_eq!(body_or_placeholder("<p>x</p>".to_string()), "<p>x</p>");
}

#[test]
fn page_wraps_body() {
    let page = docx_page_html("<p>x</p>");
    assert!(page.starts_with("<!DOCTYPE html>\n<html>"));
    assert!(page.ends_with("<p>x</p>\n</body>\n</html>"));
    assert_eq!(page.len(), DOCX_PAGE_HEAD.len() + 8 + DOCX_PAGE_TAIL.len());
    assert!(DOCX_PAGE_HEAD.contains("max-width: 750px;"));
    assert!(DOCX_PAGE_HEAD.ends_with("<body>\n  "));
}

#[test]
fn media_members_are_extracted_by_file_name() {
    assert_eq!(media_file_name("word/media/image1.png"), Some("image1.png".to_string()));
    assert_eq!(media_file_name("word/document.xml"), None);
    assert_eq!(media_file_name("xword/media/a.png"), None);
}

#[test]
fn hex_round_trip() {
    assert_eq!(u64_to_hex(0), "0");
    assert_eq!(u64_to_hex(255), "ff");
    assert_eq!(u64_to_hex(u64::MAX), "ffffffffffffffff");
    assert_eq!(parse_hex_u64("ff"), Some(255));
    assert_eq!(parse_hex_u64("FF"), Some(255));
    assert_eq!(parse_hex_u64("+1a"), Some(26));
    assert_eq!(parse_hex_u64(""), None);
    assert_eq!(parse_hex_u64("+"), None);
    assert_eq!(parse_hex_u64("-1"), None);
    assert_eq!(parse_hex_u64("xyz"), None);
    assert_eq!(parse_hex_u64("10000000000000000"), None);
    let n = 0x1234_abcd_u64;
    assert_eq!(parse_hex_u64(&u64_to_hex(n)), Some(n));
}

#[test]
fn entry_names_and_retention() {
    let name = DiskCache::entry_name(0xbeef, 7, 125, "night_high");
    assert_eq!(name, "beef_7_125_night_high.raw");
    assert_eq!(DiskCache::retention_window(1), (0, 4));
    assert_eq!(DiskCache::retention_window(10), (8, 13));
    let allowed = DiskCache::allowed_windows(&vec![(0xbeef, 10), (0xcafe, 0), (0xbeef, 5)]);
    assert_eq!(allowed.get(&0xbeef), Some(&(3, 8)));
    assert!(DiskCache::keeps_entry(&DiskCache::entry_name(0xbeef, 7, 100, "high"), &allowed));
    assert!(!DiskCache::keeps_entry(&DiskCache::entry_name(0xbeef, 10, 100, "high"), &allowed));
    assert!(DiskCache::keeps_entry("cafe_3_50_thumb.raw", &allowed));
    assert!(!DiskCache::keeps_entry("cafe_4_50_thumb.raw", &allowed));
    assert!(!DiskCache::keeps_entry("dead_1_50_thumb.raw", &allowed));
    assert!(!DiskCache::keeps_entry("cafe_1.raw", &allowed));
    assert!(!DiskCache::keeps_entry("zz_1_2_x.raw", &allowed));
}

#[test]
fn entries_belong_to_their_document() {
    let name = DiskCache::entry_name(0xab, 1, 100, "high");
    assert!(DiskCache::belongs_to(&name, 0xab));
    assert!(!DiskCache::belongs_to(&name, 0xa));
    assert!(!DiskCache::belongs_to(&name, 0xabc));
}

#[test]
fn header_round_trip() {
    let h = DiskCache::encode_header(1920, 70000);
    assert_eq!(h, [128, 7, 0, 0, 112, 17, 1, 0]);
    assert_eq!(DiskCache::decode_header(&h), (1920, 70000));
    assert_eq!(DiskCache::decode_header(&DiskCache::encode_header(u32::MAX, 0)), (u32::MAX, 0));
    assert_eq!(DiskCache::frame_len(2, 3), Some(24));
    assert_eq!(DiskCache::frame_len(65536, 65536), None);
}

#[test]
fn purge_runs_while_over_budget() {
    let mut p = DiskPurge::start(&vec![MAX_DISK_BYTES, 10, 20]);
    assert!(p.needs_removal());
    p.record_removed(30);
    assert!(!p.needs_removal());
    p.record_removed(u64::MAX);
    assert!(!p.needs_removal());
    let q = DiskPurge::start(&Vec::new());
    assert!(!q.needs_removal());
}

#[test]
fn cache_entry_descriptor() {
    let e = UsefulCacheEntry { file_path: "/tmp/a.pdf".to_string(), current_page: 3 };
    let d = DiskCache::new("/tmp/cache".to_string());
    assert_eq!(d.cache_dir(), "/tmp/cache");
    assert_eq!(e.clone().current_page, 3);
}

fn tab(active: bool, bytes: usize, current: usize, stamp: u64, idle: u64) -> TabMemory {
    TabMemory { is_active: active, texture_bytes: bytes, current_page_bytes: current, last_accessed: stamp, idle_secs: idle }
}

const MIB: usize = 1024 * 1024;

#[test]
fn purge_order_is_least_recent_first() {
    let tabs = vec![
        tab(false, 0, 0, 30, 0),
        tab(true, 0, 0, 5, 0),
        tab(false, 0, 0, 10, 0),
        tab(false, 0, 0, 10, 0),
        tab(false, 0, 0, 1, 0),
    ];
    assert_eq!(purge_order(&tabs), vec![4, 2, 3, 0]);
}

#[test]
fn over_budget_purges_oldest_background_tabs() {
    let tabs = vec![
        tab(true, 40 * MIB, 4 * MIB, 100, 0),
        tab(false, 20 * MIB, 2 * MIB, 50, 10),
        tab(false, 20 * MIB, 2 * MIB, 10, 500),
        tab(false, 20 * MIB, 2 * MIB, 80, 20),
    ];
    // 100 MiB: the oldest (index 2) is idle past the cooldown and is offloaded
    // (80 MiB), then index 1 keeps its current page (62 MiB), then index 3
    // keeps its current page (44 MiB).
    assert_eq!(
        plan_memory_purge(&tabs),
        vec![TabPurge::Keep, TabPurge::RetainCurrentPage, TabPurge::Offload, TabPurge::RetainCurrentPage]
    );
    let lighter = vec![
        tab(true, 30 * MIB, 1, 100, 0),
        tab(false, 20 * MIB, 1, 10, 0),
        tab(false, 20 * MIB, 1, 50, 0),
    ];
    assert_eq!(plan_memory_purge(&lighter), vec![TabPurge::Keep, TabPurge::RetainCurrentPage, TabPurge::Keep]);
}

#[test]
fn within_budget_offloads_only_stale_tabs() {
    let tabs = vec![
        tab(false, MIB, 0, 1, INACTIVE_COOLDOWN_SECS),
        tab(false, MIB, 0, 2, INACTIVE_COOLDOWN_SECS - 1),
        tab(true, MIB, 0, 3, 10_000),
    ];
    assert_eq!(plan_memory_purge(&tabs), vec![TabPurge::Offload, TabPurge::Keep, TabPurge::Keep]);
    assert!(plan_memory_purge(&Vec::new()).is_empty());
}

#[test]
fn image_tags() {
    assert_eq!(image_tag(Some("pic.png")), "<img src=\"pic.png\" />");
    assert_eq!(image_tag(None), "");
}

fn archive_of(members: &[(&str, &[u8])]) -> Vec<u8> {
    let mut w = zip::ZipWriter::new(std::io::Cursor::new(Vec::new()));
    let options = zip::write::FileOptions::default().compression_method(zip::CompressionMethod::Stored);
    for (name, data) in members {
        w.start_file(*name, options).unwrap();
        w.write_all(data).unwrap();
    }
    w.finish().unwrap().into_inner()
}

#[test]
fn docx_archive_to_page() {
    let xml = r#"<w:body><w:p><w:r><w:t>Hello &amp; welcome</w:t></w:r></w:p><w:p><w:r><w:drawing><a:blip r:embed="rId5"/></w:drawing></w:r></w:p></w:body>"#;
    let rels = r#"<Relationships><Relationship Id="rId5" Target="media/pic.png"/></Relationships>"#;
    let archive = archive_of(&[
        ("word/document.xml", xml.as_bytes()),
        ("word/_rels/document.xml.rels", rels.as_bytes()),
        ("word/media/pic.png", &[1u8, 2, 3][..]),
        ("docProps/app.xml", b"<x/>"),
    ]);
    let page = docx_page_from_archive(&archive).unwrap();
    let expected = docx_page_html(&body_or_placeholder(parse_docx_xml_to_html(xml, &parse_relationships(rels))));
    assert_eq!(page, expected);
    assert!(page.contains("Hello"));
    assert!(page.contains("pic.png"));
    let media = media_entries(&archive).unwrap();
    assert_eq!(media, vec![("pic.png".to_string(), vec![1u8, 2, 3])]);
}

#[test]
fn docx_archive_without_document_shows_placeholder() {
    let archive = archive_of(&[("word/media/a.jpg", b"jpg")]);
    let page = docx_page_from_archive(&archive).unwrap();
    assert_eq!(page, docx_page_html(&body_or_placeholder(String::new())));
    assert!(page.contains("Empty Word Document"));
}

#[test]
fn docx_archive_rejects_non_zip() {
    assert!(docx_page_from_archive(b"not a zip archive").is_err());
    assert!(media_entries(b"not a zip archive").is_err());
    assert!(docx_page_from_archive(&[]).is_err());
}
