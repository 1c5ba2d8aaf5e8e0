//! The engine: owns the histogram, counts the distinct words of each
//! document handed to it, and unpacks (possibly nested) ZIP archives held in
//! memory, forwarding their text entries to the tokenizer.

use vstd::prelude::*;
use crate::histogram::{Histogram, spec_record, spec_record_all, lemma_record_all_concat, lemma_record_all_singleton};
use crate::names::{has_suffix, str_has_suffix};
use crate::words::{count_distinct_words, spec_distinct_word_count};
use crate::ziparch::{zip_model, utf8_decode, zip_entry_count, zip_entry, utf8_to_string, ZipEntryModel};

verus! {

/// How a name is routed: read as text, opened as a ZIP archive, or neither.
#[derive(Debug, PartialEq, Eq, Structural)]
pub enum FileType {
    Text,
    Zip,
}

pub open spec fn txt_suffix() -> Seq<char> {
    seq!['.', 't', 'x', 't']
}

pub open spec fn zip_suffix() -> Seq<char> {
    seq!['.', 'z', 'i', 'p']
}

/// The routing decision for a name: text before archive, anything else is
/// unsupported and skipped.
pub open spec fn spec_file_type(name: Seq<char>) -> Option<FileType> {
    if has_suffix(name, txt_suffix()) {
        Some(FileType::Text)
    } else if has_suffix(name, zip_suffix()) {
        Some(FileType::Zip)
    } else {
        None
    }
}

/// A directory child as the tree walker sees it once its metadata is
/// resolved.
#[derive(Debug, PartialEq, Eq, Structural)]
pub enum EntryKind {
    Directory,
    RegularFile,
    Other,
}

/// What the tree walker does with one directory child.
#[derive(Debug, PartialEq, Eq, Structural)]
pub enum WalkAction {
    Recurse,
    ReadText,
    ReadArchive,
    Skip,
}

/// The walker's routing rule: directories are entered, regular files go by
/// suffix, anything else (symbolic links, special files) is skipped.
pub open spec fn spec_walk_step(kind: EntryKind, name: Seq<char>) -> WalkAction {
    match kind {
        EntryKind::Directory => WalkAction::Recurse,
        EntryKind::RegularFile => match spec_file_type(name) {
            Some(FileType::Text) => WalkAction::ReadText,
            Some(FileType::Zip) => WalkAction::ReadArchive,
            None => WalkAction::Skip,
        },
        EntryKind::Other => WalkAction::Skip,
    }
}

/// The word counts contributed by one archive entry, with `depth` further
/// levels of nested archives still unpacked.
pub open spec fn entry_counts(e: ZipEntryModel, depth: nat) -> Seq<int>
    decreases depth, 1int, 0int,
{
    match e {
        None => Seq::empty(),
        Some(t) => {
            if t.1 {
                Seq::empty()
            } else if has_suffix(t.0, zip_suffix()) {
                match t.2 {
                    Some(d) => if depth > 0 {
                        archive_counts(d, (depth - 1) as nat)
                    } else {
                        Seq::empty()
                    },
                    None => Seq::empty(),
                }
            } else if has_suffix(t.0, txt_suffix()) {
                match t.2 {
                    Some(d) => match utf8_decode(d) {
                        Some(cs) => seq![spec_distinct_word_count(cs) as int],
                        None => Seq::empty(),
                    },
                    None => Seq::empty(),
                }
            } else {
                Seq::empty()
            }
        },
    }
}

/// The word counts contributed by a list of archive entries, in order.
pub open spec fn entries_counts(es: Seq<ZipEntryModel>, depth: nat) -> Seq<int>
    decreases depth, 2int, es.len(),
{
    if es.len() == 0 {
        Seq::empty()
    } else {
        entry_counts(es[0], depth) + entries_counts(es.drop_first(), depth)
    }
}

/// The word counts contributed by an in-memory archive: nothing for bytes
/// that do not parse, otherwise each entry's contribution in index order,
/// with nested archives unpacked through `depth` further levels.
pub open spec fn archive_counts(bytes: Seq<u8>, depth: nat) -> Seq<int>
    decreases depth, 3int, 0int,
{
    match zip_model(bytes) {
        None => Seq::empty(),
        Some(es) => entries_counts(es, depth),
    }
}

/// Processing one more entry appends that entry's counts.
proof fn lemma_entries_counts_snoc(es: Seq<ZipEntryModel>, i: int, depth: nat)
    requires
        0 <= i < es.len(),
    ensures
        entries_counts(es.take(i + 1), depth) == entries_counts(es.take(i), depth) + entry_counts(
            es[i],
            depth,
        ),
    decreases i,
{
    if i == 0 {
        assert(es.take(1)[0] == es[0]);
        assert(es.take(1).drop_first() =~= Seq::<ZipEntryModel>::empty());
        assert(es.take(0) =~= Seq::<ZipEntryModel>::empty());
        assert(entries_counts(es.take(1), depth) =~= entries_counts(es.take(0), depth)
            + entry_counts(es[0], depth));
    } else {
        lemma_entries_counts_snoc(es.drop_first(), i - 1, depth);
        assert(es.take(i + 1)[0] == es[0]);
        assert(es.take(i)[0] == es[0]);
        assert(es.take(i + 1).drop_first() =~= es.drop_first().take(i));
        assert(es.take(i).drop_first() =~= es.drop_first().take(i - 1));
        assert(es.drop_first()[i - 1] == es[i]);
        assert(entries_counts(es.take(i + 1), depth) =~= entries_counts(es.take(i), depth)
            + entry_counts(es[i], depth));
    }
}

pub struct Processor {
    stats: Histogram,
}

impl Processor {
    /// The owned histogram, for specification purposes.
    pub closed spec fn histogram(&self) -> Histogram {
        self.stats
    }

    pub open spec fn wf(&self) -> bool {
        self.histogram().wf()
    }

    /// The aggregate state: bin index to frequency.
    pub open spec fn hist(&self) -> Map<int, int> {
        self.histogram().freqs()
    }

    pub open spec fn spec_bin_size(&self) -> int {
        self.histogram().spec_bin_size()
    }

    pub open spec fn spec_include_zeroes(&self) -> bool {
        self.histogram().spec_include_zeroes()
    }

    pub fn new(bin_size: usize, include_zeroes: bool) -> (p: Processor)
        requires
            bin_size >= 1,
        ensures
            p.wf(),
            p.spec_bin_size() == bin_size,
            p.spec_include_zeroes() == include_zeroes,
            p.hist() == Map::<int, int>::empty(),
    {
        Processor { stats: Histogram::new(bin_size, include_zeroes) }
    }

    pub fn stats(&self) -> (r: &Histogram)
        ensures
            *r == self.histogram(),
    {
        &self.stats
    }

    /// The number of distinct whitespace-delimited words of `contents`.
    pub fn count_words(contents: &String) -> (n: usize)
        ensures
            n as nat == spec_distinct_word_count(contents@),
    {
        count_distinct_words(contents.as_str())
    }

    /// Routes a file name by its suffix: `.txt` to the tokenizer, `.zip` to
    /// the archive unpacker, anything else is unsupported.
    pub fn file_type(&self, name: &str) -> (r: Option<FileType>)
        ensures
            r == spec_file_type(name@),
    {
        proof {
            reveal_strlit(".txt");
            reveal_strlit(".zip");
            assert(".txt"@ =~= txt_suffix());
            assert(".zip"@ =~= zip_suffix());
        }
        if str_has_suffix(name, ".txt") {
            Some(FileType::Text)
        } else if str_has_suffix(name, ".zip") {
            Some(FileType::Zip)
        } else {
            None
        }
    }

    /// Decides what the tree walker does with one directory child.
    pub fn walk_step(&self, kind: EntryKind, name: &str) -> (r: WalkAction)
        ensures
            r == spec_walk_step(kind, name@),
    {
        match kind {
            EntryKind::Directory => WalkAction::Recurse,
            EntryKind::RegularFile => match self.file_type(name) {
                Some(FileType::Text) => WalkAction::ReadText,
                Some(FileType::Zip) => WalkAction::ReadArchive,
                None => WalkAction::Skip,
            },
            EntryKind::Other => WalkAction::Skip,
        }
    }

    /// Counts the distinct words of one text document and folds the count
    /// into the histogram.
    pub fn process_text(&mut self, contents: &str)
        requires
            old(self).wf(),
        ensures
            final(self).wf(),
            final(self).spec_bin_size() == old(self).spec_bin_size(),
            final(self).spec_include_zeroes() == old(self).spec_include_zeroes(),
            final(self).hist() == spec_record(
                old(self).hist(),
                spec_distinct_word_count(contents@) as int,
                old(self).spec_bin_size(),
                old(self).spec_include_zeroes(),
            ),
    {
        let n = count_distinct_words(contents);
        self.stats.add_word_count(n);
    }

    /// Unpacks an in-memory ZIP archive: text entries are counted, nested
    /// archives are unpacked recursively through `depth` further levels,
    /// directory markers and unreadable or unsupported entries are skipped.
    /// Bytes that do not parse as an archive contribute nothing.
    pub fn count_words_in_zipfile(&mut self, bytes: &Vec<u8>, depth: usize)
        requires
            old(self).wf(),
        ensures
            final(self).wf(),
            final(self).spec_bin_size() == old(self).spec_bin_size(),
            final(self).spec_include_zeroes() == old(self).spec_include_zeroes(),
            final(self).hist() == spec_record_all(
                old(self).hist(),
                archive_counts(bytes@, depth as nat),
                old(self).spec_bin_size(),
                old(self).spec_include_zeroes(),
            ),
        decreases depth,
    {
        let ghost bs = old(self).spec_bin_size();
        let ghost z = old(self).spec_include_zeroes();
        let ghost m0 = old(self).hist();
        let n = match zip_entry_count(bytes) {
            Some(n) => n,
            None => {
                proof {
                    assert(archive_counts(bytes@, depth as nat) =~= Seq::<int>::empty());
                }
                return ;
            },
        };
        let ghost es = zip_model(bytes@).unwrap();
        let mut i: usize = 0;
        proof {
            assert(es.take(0) =~= Seq::<ZipEntryModel>::empty());
        }
        while i < n
            invariant
                self.wf(),
                self.spec_bin_size() == bs,
                self.spec_include_zeroes() == z,
                zip_model(bytes@) == Some(es),
                n == es.len(),
                i <= n,
                self.hist() == spec_record_all(m0, entries_counts(es.take(i as int), depth as nat), bs, z),
            decreases n - i,
        {
            let ghost prev = self.hist();
            let ghost e = es[i as int];
            match zip_entry(bytes, i) {
                None => {
                    proof {
                        assert(entry_counts(e, depth as nat) =~= Seq::<int>::empty());
                    }
                },
                Some((name, is_dir, data)) => {
                    proof {
                        reveal_strlit(".txt");
                        reveal_strlit(".zip");
                        assert(".txt"@ =~= txt_suffix());
                        assert(".zip"@ =~= zip_suffix());
                    }
                    if is_dir {
                        proof {
                            assert(entry_counts(e, depth as nat) =~= Seq::<int>::empty());
                        }
                    } else if str_has_suffix(name.as_str(), ".zip") {
                        match data {
                            Some(d) => {
                                if depth > 0 {
                                    self.count_words_in_zipfile(&d, depth - 1);
                                    proof {
                                        assert(entry_counts(e, depth as nat) =~= archive_counts(
                                            d@,
                                            (depth - 1) as nat,
                                        ));
                                    }
                                } else {
                                    proof {
                                        assert(entry_counts(e, depth as nat)
                                            =~= Seq::<int>::empty());
                                    }
                                }
                            },
                            None => {
                                proof {
                                    assert(entry_counts(e, depth as nat) =~= Seq::<int>::empty());
                                }
                            },
                        }
                    } else if str_has_suffix(name.as_str(), ".txt") {
                        match data {
                            Some(d) => {
                                let ghost dv = d@;
                                match utf8_to_string(d) {
                                    Some(text) => {
                                        self.process_text(text.as_str());
                                        proof {
                                            assert(entry_counts(e, depth as nat) =~= seq![
                                                spec_distinct_word_count(text@) as int,
                                            ]);
                                            lemma_record_all_singleton(
                                                prev,
                                                spec_distinct_word_count(text@) as int,
                                                bs,
                                                z,
                                            );
                                        }
                                    },
                                    None => {
                                        proof {
                                            assert(entry_counts(e, depth as nat)
                                                =~= Seq::<int>::empty());
                                        }
                                    },
                                }
                            },
                            None => {
                                proof {
                                    assert(entry_counts(e, depth as nat) =~= Seq::<int>::empty());
                                }
                            },
                        }
                    } else {
                        proof {
                            assert(entry_counts(e, depth as nat) =~= Seq::<int>::empty());
                        }
                    }
                },
            }
            i += 1;
            proof {
                lemma_entries_counts_snoc(es, i - 1, depth as nat);
                lemma_record_all_concat(
                    m0,
                    entries_counts(es.take(i - 1), depth as nat),
                    entry_counts(e, depth as nat),
                    bs,
                    z,
                );
                assert(spec_record_all(prev, Seq::<int>::empty(), bs, z) == prev);
                assert(self.hist() == spec_record_all(prev, entry_counts(e, depth as nat), bs, z));
                assert(self.hist() == spec_record_all(
                    m0,
                    entries_counts(es.take(i as int), depth as nat),
                    bs,
                    z,
                ));
            }
        }
        proof {
            assert(es.take(n as int) =~= es);
        }
    }

    /// Unpacks an in-memory ZIP archive with effectively unbounded nesting:
    /// more levels than any physical archive can hold.
    pub fn process_archive(&mut self, bytes: &Vec<u8>)
        requires
            old(self).wf(),
        ensures
            final(self).wf(),
            final(self).spec_bin_size() == old(self).spec_bin_size(),
            final(self).spec_include_zeroes() == old(self).spec_include_zeroes(),
            final(self).hist() == spec_record_all(
                old(self).hist(),
                archive_counts(bytes@, usize::MAX as nat),
                old(self).spec_bin_size(),
                old(self).spec_include_zeroes(),
            ),
    {
        self.count_words_in_zipfile(bytes, usize::MAX);
    }
}

} // verus!
