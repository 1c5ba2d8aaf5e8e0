use std::io::Write;

use wordhist::histogram::Histogram;
use wordhist::processor::{EntryKind, FileType, Processor, WalkAction};
use wordhist::words::count_distinct_words;

#[test]
fn count_words() {
    assert_eq!(Processor::count_words(&String::from("a b c a")), 3);
}

#[test]
fn count_distinct_simple() {
    assert_eq!(count_distinct_words("a b c"), 3);
}

#[test]
fn count_distinct_repetition_collapses() {
    assert_eq!(count_distinct_words("a b c a"), 3);
}

#[test]
fn count_distinct_empty() {
    assert_eq!(count_distinct_words(""), 0);
}

#[test]
fn count_distinct_mixed_whitespace() {
    assert_eq!(count_distinct_words(" one\ttwo\nthree  two\r\n"), 3);
}

#[test]
fn histogram_touches_one_bin() {
    let mut h = Histogram::new(1, false);
    h.add_word_count(3);
    assert_eq!(h.entries(), &vec![(3, 1)]);
    h.add_word_count(5);
    h.add_word_count(3);
    assert_eq!(h.entries(), &vec![(3, 2), (5, 1)]);
}

#[test]
fn histogram_bins_by_size() {
    let mut h = Histogram::new(10, false);
    h.add_word_count(7);
    h.add_word_count(12);
    h.add_word_count(19);
    assert_eq!(h.entries(), &vec![(0, 1), (1, 2)]);
}

#[test]
fn histogram_zero_fill_has_no_gaps() {
    let mut h = Histogram::new(2, true);
    h.add_word_count(5);
    assert_eq!(h.entries(), &vec![(0, 0), (1, 0), (2, 1)]);
    h.add_word_count(0);
    assert_eq!(h.entries(), &vec![(0, 1), (1, 0), (2, 1)]);
    h.add_word_count(9);
    assert_eq!(h.entries(), &vec![(0, 1), (1, 0), (2, 1), (3, 0), (4, 1)]);
}

#[test]
fn histogram_without_zero_fill_keeps_gaps() {
    let mut h = Histogram::new(1, false);
    h.add_word_count(4);
    assert_eq!(h.entries(), &vec![(4, 1)]);
}

#[test]
fn histogram_order_independent() {
    let counts = [3usize, 0, 7, 3, 12, 5];
    let permuted = [12usize, 3, 5, 0, 3, 7];
    let mut a = Histogram::new(2, true);
    let mut b = Histogram::new(2, true);
    for c in counts {
        a.add_word_count(c);
    }
    for c in permuted {
        b.add_word_count(c);
    }
    assert_eq!(a.entries(), b.entries());
    assert_eq!(a.acsii_histogram(), b.acsii_histogram());
}

#[test]
fn render_single_bin() {
    let mut h = Histogram::new(1, false);
    h.add_word_count(3);
    let expected = "+----------+----------+\n\
                    |Word count| Frequency|\n\
                    +----------+----------+\n\
                    |         3|         1|\n\
                    +----------+----------+\n";
    assert_eq!(h.acsii_histogram(), expected);
}

#[test]
fn render_ranges_when_binned() {
    let mut h = Histogram::new(5, false);
    h.add_word_count(2);
    h.add_word_count(7);
    let expected = "+----------+----------+\n\
                    |Word count| Frequency|\n\
                    +----------+----------+\n\
                    |       0-5|         1|\n\
                    |      5-10|         1|\n\
                    +----------+----------+\n";
    assert_eq!(h.acsii_histogram(), expected);
}

#[test]
fn render_is_deterministic() {
    let mut h = Histogram::new(1, true);
    h.add_word_count(2);
    h.add_word_count(0);
    assert_eq!(h.acsii_histogram(), h.acsii_histogram());
}

#[test]
fn processor_text_document() {
    let mut p = Processor::new(1, false);
    p.process_text("a b c");
    assert_eq!(p.stats().entries(), &vec![(3, 1)]);
}

#[test]
fn file_type_routing() {
    let p = Processor::new(1, false);
    assert_eq!(p.file_type("notes.txt"), Some(FileType::Text));
    assert_eq!(p.file_type("pack.zip"), Some(FileType::Zip));
    assert_eq!(p.file_type("readme.md"), None);
    assert_eq!(p.file_type("plaintxt"), None);
}

#[test]
fn walker_routing() {
    let p = Processor::new(1, false);
    assert_eq!(p.walk_step(EntryKind::Directory, "anything"), WalkAction::Recurse);
    assert_eq!(p.walk_step(EntryKind::RegularFile, "a.txt"), WalkAction::ReadText);
    assert_eq!(p.walk_step(EntryKind::RegularFile, "a.zip"), WalkAction::ReadArchive);
    assert_eq!(p.walk_step(EntryKind::RegularFile, "a.rs"), WalkAction::Skip);
    assert_eq!(p.walk_step(EntryKind::Other, "a.txt"), WalkAction::Skip);
}

fn zip_bytes(entries: &[(&str, &[u8])]) -> Vec<u8> {
    let cursor = std::io::Cursor::new(Vec::new());
    let mut w = zip::ZipWriter::new(cursor);
    let options = zip::write::SimpleFileOptions::default();
    for (name, content) in entries {
        w.start_file(*name, options).unwrap();
        w.write_all(content).unwrap();
    }
    w.finish().unwrap().into_inner()
}

#[test]
fn archive_counts_text_entries_only() {
    let bytes = zip_bytes(&[("note.txt", b"x y"), ("skip.md", b"a b c d")]);
    let mut p = Processor::new(1, false);
    p.process_archive(&bytes);
    assert_eq!(p.stats().entries(), &vec![(2, 1)]);
}

#[test]
fn archive_nested_zip_is_unpacked() {
    let inner = zip_bytes(&[("note.txt", b"a b c")]);
    let outer = zip_bytes(&[("inner.zip", &inner)]);
    let mut p = Processor::new(1, false);
    p.process_archive(&outer);
    assert_eq!(p.stats().entries(), &vec![(3, 1)]);
}

#[test]
fn archive_double_nesting() {
    let inner = zip_bytes(&[("deep.txt", b"one two"), ("other.md", b"zz")]);
    let mid = zip_bytes(&[("inner.zip", &inner), ("here.txt", b"a")]);
    let outer = zip_bytes(&[("mid.zip", &mid)]);
    let mut p = Processor::new(1, false);
    p.process_archive(&outer);
    assert_eq!(p.stats().entries(), &vec![(1, 1), (2, 1)]);
}

#[test]
fn archive_invalid_utf8_entry_is_skipped() {
    let bytes = zip_bytes(&[("bad.txt", &[0xff, 0xfe, 0x61]), ("good.txt", b"a b")]);
    let mut p = Processor::new(1, false);
    p.process_archive(&bytes);
    assert_eq!(p.stats().entries(), &vec![(2, 1)]);
}

#[test]
fn malformed_archive_contributes_nothing() {
    let bytes = vec![1u8, 2, 3, 4, 5];
    let mut p = Processor::new(1, false);
    p.process_archive(&bytes);
    assert!(p.stats().entries().is_empty());
}

#[test]
fn archive_directory_marker_is_skipped() {
    let cursor = std::io::Cursor::new(Vec::new());
    let mut w = zip::ZipWriter::new(cursor);
    let options = zip::write::SimpleFileOptions::default();
    w.add_directory("sub", options).unwrap();
    w.start_file("sub/inner.txt", options).unwrap();
    w.write_all(b"p q r").unwrap();
    let bytes = w.finish().unwrap().into_inner();
    let mut p = Processor::new(1, false);
    p.process_archive(&bytes);
    assert_eq!(p.stats().entries(), &vec![(3, 1)]);
}

#[test]
fn engine_runs_are_identical() {
    let bytes = zip_bytes(&[("one.txt", b"u v w"), ("two.txt", b"u u")]);
    let mut first = Processor::new(1, true);
    first.process_text("a b");
    first.process_archive(&bytes);
    let mut second = Processor::new(1, true);
    second.process_text("a b");
    second.process_archive(&bytes);
    assert_eq!(first.stats().acsii_histogram(), second.stats().acsii_histogram());
}

#[test]
fn doubled_text_counts_once() {
    let once = "pear plum quince";
    let doubled = "pear plum quince pear plum quince";
    assert_eq!(count_distinct_words(doubled), count_distinct_words(once));
    assert_eq!(count_distinct_words(doubled), 3);
}
