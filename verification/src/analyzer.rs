//! Per-file statistics: the data carried by progress events, and the pure
//! counting functions (words, lines, character frequencies) that the
//! analysis of a file's content comes down to once the bytes are in hand.

use std::collections::HashMap;
use vstd::prelude::*;

verus! {

broadcast use vstd::std_specs::hash::group_hash_axioms;

/// Holds statistical information about a single file.
#[derive(Debug, Clone)]
pub struct FileStats {
    /// Total number of words in the file
    pub word_count: usize,
    /// Total number of lines in the file
    pub line_count: usize,
    /// Frequency count of each character, keyed by its Unicode scalar value
    pub char_frequencies: HashMap<u32, usize>,
    /// File size in bytes
    pub size_bytes: u64,
}

impl FileStats {
    /// Creates a new `FileStats` instance with all values initialized to zero.
    pub fn new() -> (r: FileStats)
        ensures
            r.word_count == 0,
            r.line_count == 0,
            r.char_frequencies@ == Map::<u32, usize>::empty(),
            r.size_bytes == 0,
    {
        FileStats {
            word_count: 0,
            line_count: 0,
            char_frequencies: HashMap::new(),
            size_bytes: 0,
        }
    }
}

/// Represents an error that occurred during file processing.
#[derive(Debug)]
pub struct ProcessingError {
    /// Name of the file being processed
    pub filename: String,
    /// Operation during which the error occurred (e.g., open, read, metadata)
    pub operation: String,
    /// Error message describing the failure
    pub message: String,
}

/// Represents a high-level result of an analysis operation.
#[derive(Debug)]
pub struct AnalysisResult {
    pub total_files: String,
    pub operation: String,
    pub message: String,
}

/// Contains the full analysis output for a single file.
#[derive(Debug)]
pub struct FileAnalysis {
    /// File path or name
    pub filename: String,
    /// Collected file statistics
    pub stats: FileStats,
    /// List of errors encountered during processing
    pub errors: Vec<ProcessingError>,
    /// Total time taken to analyze the file, in milliseconds
    pub processing_time: u64,
}

/// A character with the Unicode `White_Space` property: the separators
/// that delimit words in a line of text.
pub open spec fn is_space_char(c: char) -> bool {
    let u = c as u32;
    u == 0x20 || (0x09 <= u && u <= 0x0d) || u == 0x85 || u == 0xa0 || u == 0x1680 || (0x2000 <= u
        && u <= 0x200a) || u == 0x2028 || u == 0x2029 || u == 0x202f || u == 0x205f || u == 0x3000
}

/// Executable check for `is_space_char`.
pub fn is_space(c: char) -> (r: bool)
    ensures
        r == is_space_char(c),
{
    let u = c as u32;
    u == 0x20 || (0x09 <= u && u <= 0x0d) || u == 0x85 || u == 0xa0 || u == 0x1680 || (0x2000 <= u
        && u <= 0x200a) || u == 0x2028 || u == 0x2029 || u == 0x202f || u == 0x205f || u == 0x3000
}

/// A word starts at position `i` of `s` when `s[i]` is not whitespace and
/// either `i` is the first position or the previous character is whitespace.
pub open spec fn word_starts_at(s: Seq<char>, i: int) -> bool {
    !is_space_char(s[i]) && (i == 0 || is_space_char(s[i - 1]))
}

/// Number of words starting within the first `n` characters of `s`.
pub open spec fn words_in_prefix(s: Seq<char>, n: int) -> nat
    decreases n,
{
    if n <= 0 {
        0
    } else {
        words_in_prefix(s, n - 1) + (if word_starts_at(s, n - 1) {
            1nat
        } else {
            0nat
        })
    }
}

/// Number of whitespace-separated words in `s`: the count of maximal
/// nonempty runs of non-whitespace characters.
pub open spec fn word_count_of(s: Seq<char>) -> nat {
    words_in_prefix(s, s.len() as int)
}

/// Number of occurrences of the scalar value `k` within the first `n`
/// characters of `s`.
pub open spec fn occ_in_prefix(s: Seq<char>, k: u32, n: int) -> nat
    decreases n,
{
    if n <= 0 {
        0
    } else {
        occ_in_prefix(s, k, n - 1) + (if s[n - 1] as u32 == k {
            1nat
        } else {
            0nat
        })
    }
}

/// Number of occurrences of the scalar value `k` in `s`.
pub open spec fn occurrences(s: Seq<char>, k: u32) -> nat {
    occ_in_prefix(s, k, s.len() as int)
}

pub proof fn lemma_words_in_prefix_le(s: Seq<char>, n: int)
    ensures
        words_in_prefix(s, n) <= (if n <= 0 {
            0int
        } else {
            n
        }),
    decreases n,
{
    if n > 0 {
        lemma_words_in_prefix_le(s, n - 1);
    }
}

pub proof fn lemma_occ_in_prefix_le(s: Seq<char>, k: u32, n: int)
    ensures
        occ_in_prefix(s, k, n) <= (if n <= 0 {
            0int
        } else {
            n
        }),
    decreases n,
{
    if n > 0 {
        lemma_occ_in_prefix_le(s, k, n - 1);
    }
}

/// Counts the whitespace-separated words in one line of characters.
pub fn count_words(line: &Vec<char>) -> (r: usize)
    ensures
        r == word_count_of(line@),
{
    let mut count: usize = 0;
    let mut prev_space: bool = true;
    let mut j: usize = 0;
    while j < line.len()
        invariant
            j <= line@.len(),
            count == words_in_prefix(line@, j as int),
            prev_space == (j == 0 || is_space_char(line@[j as int - 1])),
        decreases line@.len() - j,
    {
        let c = line[j];
        let sp = is_space(c);
        proof {
            lemma_words_in_prefix_le(line@, j as int);
        }
        if !sp && prev_space {
            count = count + 1;
        }
        prev_space = sp;
        j = j + 1;
    }
    count
}

/// Adds the character frequencies of one line into `freq`. A scalar value
/// absent from the map counts as zero; keys never seen stay absent.
pub fn tally_frequencies(freq: &mut HashMap<u32, usize>, line: &Vec<char>)
    requires
        forall|k: u32| #[trigger]
            old(freq)@.contains_key(k) ==> old(freq)@[k] + line@.len() <= usize::MAX,
    ensures
        forall|k: u32| #[trigger]
            final(freq)@.contains_key(k) <==> (old(freq)@.contains_key(k) || occurrences(line@, k)
                > 0),
        forall|k: u32| #[trigger]
            final(freq)@.contains_key(k) ==> final(freq)@[k] == (if old(freq)@.contains_key(k) {
                old(freq)@[k] as int
            } else {
                0int
            }) + occurrences(line@, k),
{
    let mut j: usize = 0;
    while j < line.len()
        invariant
            j <= line@.len(),
            forall|k: u32| #[trigger]
                old(freq)@.contains_key(k) ==> old(freq)@[k] + line@.len() <= usize::MAX,
            forall|k: u32| #[trigger]
                freq@.contains_key(k) <==> (old(freq)@.contains_key(k) || occ_in_prefix(
                    line@,
                    k,
                    j as int,
                ) > 0),
            forall|k: u32| #[trigger]
                freq@.contains_key(k) ==> freq@[k] == (if old(freq)@.contains_key(k) {
                    old(freq)@[k] as int
                } else {
                    0int
                }) + occ_in_prefix(line@, k, j as int),
        decreases line@.len() - j,
    {
        let key: u32 = line[j] as u32;
        proof {
            lemma_occ_in_prefix_le(line@, key, j as int);
        }
        let cur: usize = match freq.get(&key) {
            Some(v) => *v,
            None => 0,
        };
        freq.insert(key, cur + 1);
        j = j + 1;
    }
}

/// Total word count over the first `n` lines.
pub open spec fn lines_words(ls: Seq<Seq<char>>, n: int) -> nat
    decreases n,
{
    if n <= 0 {
        0
    } else {
        lines_words(ls, n - 1) + word_count_of(ls[n - 1])
    }
}

/// Total occurrences of scalar value `k` over the first `n` lines.
pub open spec fn lines_occ(ls: Seq<Seq<char>>, k: u32, n: int) -> nat
    decreases n,
{
    if n <= 0 {
        0
    } else {
        lines_occ(ls, k, n - 1) + occurrences(ls[n - 1], k)
    }
}

/// Total character count over the first `n` lines.
pub open spec fn lines_chars(ls: Seq<Seq<char>>, n: int) -> nat
    decreases n,
{
    if n <= 0 {
        0
    } else {
        lines_chars(ls, n - 1) + ls[n - 1].len()
    }
}

pub proof fn lemma_lines_words_le_chars(ls: Seq<Seq<char>>, n: int)
    ensures
        lines_words(ls, n) <= lines_chars(ls, n),
    decreases n,
{
    if n > 0 {
        lemma_lines_words_le_chars(ls, n - 1);
        lemma_words_in_prefix_le(ls[n - 1], ls[n - 1].len() as int);
    }
}

pub proof fn lemma_lines_occ_le_chars(ls: Seq<Seq<char>>, k: u32, n: int)
    ensures
        lines_occ(ls, k, n) <= lines_chars(ls, n),
    decreases n,
{
    if n > 0 {
        lemma_lines_occ_le_chars(ls, k, n - 1);
        lemma_occ_in_prefix_le(ls[n - 1], k, ls[n - 1].len() as int);
    }
}

pub proof fn lemma_lines_chars_monotonic(ls: Seq<Seq<char>>, m: int, n: int)
    requires
        m <= n,
    ensures
        lines_chars(ls, m) <= lines_chars(ls, n),
    decreases n - m,
{
    if m < n {
        lemma_lines_chars_monotonic(ls, m, n - 1);
    }
}

/// The views of a sequence of character vectors.
pub open spec fn char_lines_view(lines: Seq<Vec<char>>) -> Seq<Seq<char>> {
    lines.map_values(|l: Vec<char>| l@)
}

/// Computes the statistics of a text file read as a sequence of lines:
/// the number of lines, the whitespace-separated words summed over the
/// lines, and the frequency of every character. `size_bytes` is left at
/// zero for the caller to fill in from the file's metadata.
pub fn text_statistics(lines: &Vec<Vec<char>>) -> (r: FileStats)
    requires
        lines_chars(char_lines_view(lines@), lines@.len() as int) <= usize::MAX,
    ensures
        r.line_count == lines@.len(),
        r.word_count == lines_words(char_lines_view(lines@), lines@.len() as int),
        forall|k: u32| #[trigger]
            r.char_frequencies@.contains_key(k) <==> lines_occ(
                char_lines_view(lines@),
                k,
                lines@.len() as int,
            ) > 0,
        forall|k: u32| #[trigger]
            r.char_frequencies@.contains_key(k) ==> r.char_frequencies@[k] == lines_occ(
                char_lines_view(lines@),
                k,
                lines@.len() as int,
            ),
        r.size_bytes == 0,
{
    let ghost lsv = char_lines_view(lines@);
    let mut words: usize = 0;
    let mut freq: HashMap<u32, usize> = HashMap::new();
    let mut i: usize = 0;
    while i < lines.len()
        invariant
            i <= lines@.len(),
            lsv == char_lines_view(lines@),
            lines_chars(lsv, lines@.len() as int) <= usize::MAX,
            words == lines_words(lsv, i as int),
            forall|k: u32| #[trigger]
                freq@.contains_key(k) <==> lines_occ(lsv, k, i as int) > 0,
            forall|k: u32| #[trigger] freq@.contains_key(k) ==> freq@[k] == lines_occ(lsv, k, i as int),
        decreases lines@.len() - i,
    {
        let line = &lines[i];
        proof {
            assert(lsv[i as int] == line@);
            lemma_lines_words_le_chars(lsv, i as int);
            lemma_lines_chars_monotonic(lsv, i as int + 1, lines@.len() as int);
            lemma_words_in_prefix_le(line@, line@.len() as int);
            assert forall|k: u32| #[trigger] freq@.contains_key(k) implies freq@[k] + line@.len()
                <= usize::MAX by {
                lemma_lines_occ_le_chars(lsv, k, i as int);
            }
        }
        let wc = count_words(line);
        words = words + wc;
        tally_frequencies(&mut freq, line);
        proof {
            assert forall|k: u32| #[trigger]
                freq@.contains_key(k) <==> lines_occ(lsv, k, i as int + 1) > 0 by {}
        }
        i = i + 1;
    }
    let mut r = FileStats::new();
    r.word_count = words;
    r.line_count = lines.len();
    r.char_frequencies = freq;
    r
}

/// Size of the blocks in which raw (non-UTF-8) file content is tallied.
pub const BLOCK_SIZE: usize = 8192;

/// A byte that separates words in raw content: space, newline, tab or
/// carriage return.
pub open spec fn is_sep_byte(b: u8) -> bool {
    b == 0x20 || b == 0x0a || b == 0x09 || b == 0x0d
}

/// A word starts at position `i` of raw content when `s[i]` is not a
/// separator and either `i` opens a block or the previous byte is a
/// separator. Content is tallied block by block, so a run crossing a
/// block boundary counts once in each block.
pub open spec fn byte_word_starts_at(s: Seq<u8>, i: int) -> bool {
    !is_sep_byte(s[i]) && (i % (BLOCK_SIZE as int) == 0 || is_sep_byte(s[i - 1]))
}

/// Number of raw words starting within the first `n` bytes of `s`.
pub open spec fn byte_words_in_prefix(s: Seq<u8>, n: int) -> nat
    decreases n,
{
    if n <= 0 {
        0
    } else {
        byte_words_in_prefix(s, n - 1) + (if byte_word_starts_at(s, n - 1) {
            1nat
        } else {
            0nat
        })
    }
}

/// Number of raw words in `s`, tallied block by block.
pub open spec fn byte_word_count(s: Seq<u8>) -> nat {
    byte_words_in_prefix(s, s.len() as int)
}

/// Number of newline bytes within the first `n` bytes of `s`.
pub open spec fn newlines_in_prefix(s: Seq<u8>, n: int) -> nat
    decreases n,
{
    if n <= 0 {
        0
    } else {
        newlines_in_prefix(s, n - 1) + (if s[n - 1] == 0x0a {
            1nat
        } else {
            0nat
        })
    }
}

/// Number of newline bytes in `s`.
pub open spec fn newline_count(s: Seq<u8>) -> nat {
    newlines_in_prefix(s, s.len() as int)
}

/// Number of occurrences of the byte value `k` within the first `n` bytes.
pub open spec fn byte_occ_in_prefix(s: Seq<u8>, k: u32, n: int) -> nat
    decreases n,
{
    if n <= 0 {
        0
    } else {
        byte_occ_in_prefix(s, k, n - 1) + (if s[n - 1] as u32 == k {
            1nat
        } else {
            0nat
        })
    }
}

/// Number of occurrences of the byte value `k` in `s`.
pub open spec fn byte_occurrences(s: Seq<u8>, k: u32) -> nat {
    byte_occ_in_prefix(s, k, s.len() as int)
}

pub proof fn lemma_byte_words_in_prefix_le(s: Seq<u8>, n: int)
    ensures
        byte_words_in_prefix(s, n) <= (if n <= 0 {
            0int
        } else {
            n
        }),
    decreases n,
{
    if n > 0 {
        lemma_byte_words_in_prefix_le(s, n - 1);
    }
}

pub proof fn lemma_newlines_in_prefix_le(s: Seq<u8>, n: int)
    ensures
        newlines_in_prefix(s, n) <= (if n <= 0 {
            0int
        } else {
            n
        }),
    decreases n,
{
    if n > 0 {
        lemma_newlines_in_prefix_le(s, n - 1);
    }
}

pub proof fn lemma_byte_occ_in_prefix_le(s: Seq<u8>, k: u32, n: int)
    ensures
        byte_occ_in_prefix(s, k, n) <= (if n <= 0 {
            0int
        } else {
            n
        }),
    decreases n,
{
    if n > 0 {
        lemma_byte_occ_in_prefix_le(s, k, n - 1);
    }
}

/// Adds the statistics of raw (non-UTF-8) content onto already collected
/// statistics: newline bytes extend the line count, separator-delimited
/// byte runs extend the word count (tallied block by block), and each
/// byte's value extends the frequency map. `size_bytes` is untouched.
pub fn binary_statistics(stats: FileStats, data: &Vec<u8>) -> (r: FileStats)
    requires
        stats.word_count + data@.len() <= usize::MAX,
        stats.line_count + data@.len() <= usize::MAX,
        forall|k: u32| #[trigger]
            stats.char_frequencies@.contains_key(k) ==> stats.char_frequencies@[k] + data@.len()
                <= usize::MAX,
    ensures
        r.word_count == stats.word_count + byte_word_count(data@),
        r.line_count == stats.line_count + newline_count(data@),
        r.size_bytes == stats.size_bytes,
        forall|k: u32| #[trigger]
            r.char_frequencies@.contains_key(k) <==> (stats.char_frequencies@.contains_key(k)
                || byte_occurrences(data@, k) > 0),
        forall|k: u32| #[trigger]
            r.char_frequencies@.contains_key(k) ==> r.char_frequencies@[k] == (if stats.char_frequencies@.contains_key(
                k,
            ) {
                stats.char_frequencies@[k] as int
            } else {
                0int
            }) + byte_occurrences(data@, k),
{
    let mut words = stats.word_count;
    let mut lines = stats.line_count;
    let mut freq = stats.char_frequencies;
    let ghost freq0 = freq@;
    let mut prev_sep: bool = true;
    let mut j: usize = 0;
    while j < data.len()
        invariant
            j <= data@.len(),
            stats.word_count + data@.len() <= usize::MAX,
            stats.line_count + data@.len() <= usize::MAX,
            forall|k: u32| #[trigger] freq0.contains_key(k) ==> freq0[k] + data@.len() <= usize::MAX,
            words == stats.word_count + byte_words_in_prefix(data@, j as int),
            lines == stats.line_count + newlines_in_prefix(data@, j as int),
            j > 0 ==> prev_sep == is_sep_byte(data@[j as int - 1]),
            forall|k: u32| #[trigger]
                freq@.contains_key(k) <==> (freq0.contains_key(k) || byte_occ_in_prefix(
                    data@,
                    k,
                    j as int,
                ) > 0),
            forall|k: u32| #[trigger]
                freq@.contains_key(k) ==> freq@[k] == (if freq0.contains_key(k) {
                    freq0[k] as int
                } else {
                    0int
                }) + byte_occ_in_prefix(data@, k, j as int),
        decreases data@.len() - j,
    {
        let b = data[j];
        let key: u32 = b as u32;
        let sep = b == 0x20 || b == 0x0a || b == 0x09 || b == 0x0d;
        let boundary = j % BLOCK_SIZE == 0;
        proof {
            lemma_byte_words_in_prefix_le(data@, j as int);
            lemma_newlines_in_prefix_le(data@, j as int);
            lemma_byte_occ_in_prefix_le(data@, key, j as int);
        }
        if !sep && (boundary || prev_sep) {
            words = words + 1;
        }
        if b == 0x0a {
            lines = lines + 1;
        }
        let cur: usize = match freq.get(&key) {
            Some(v) => *v,
            None => 0,
        };
        freq.insert(key, cur + 1);
        prev_sep = sep;
        j = j + 1;
    }
    FileStats {
        word_count: words,
        line_count: lines,
        char_frequencies: freq,
        size_bytes: stats.size_bytes,
    }
}

} // verus!
