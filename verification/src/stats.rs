use vstd::prelude::*;
use vstd::string::{StrSliceExecFns, StringExecFns};
use crate::text::{dec_digits, push_dec};

verus! {

/// What std's char::is_whitespace answers: whether the character has the
/// Unicode White_Space property, a function of the character alone.
pub uninterp spec fn is_unicode_ws(c: char) -> bool;

/// Relies on std's char::is_whitespace: true exactly for the characters
/// with the Unicode White_Space property.
pub assume_specification[ char::is_whitespace ](c: char) -> (r: bool)
    ensures
        r == is_unicode_ws(c),
;

/// Running counts over a stream: bytes read, newline characters, words,
/// and characters.
#[derive(Debug, PartialEq, Default)]
pub struct FileStats {
    pub bytes: u64,
    pub lines: usize,
    pub words: usize,
    pub chars: usize,
}

impl FileStats {
    /// Adds the other counts onto these, field by field.
    pub fn add(&mut self, other: &FileStats)
        requires
            old(self).bytes + other.bytes <= u64::MAX,
            old(self).lines + other.lines <= usize::MAX,
            old(self).words + other.words <= usize::MAX,
            old(self).chars + other.chars <= usize::MAX,
        ensures
            final(self).bytes == old(self).bytes + other.bytes,
            final(self).lines == old(self).lines + other.lines,
            final(self).words == old(self).words + other.words,
            final(self).chars == old(self).chars + other.chars,
    {
        self.bytes = self.bytes + other.bytes;
        self.lines = self.lines + other.lines;
        self.words = self.words + other.words;
        self.chars = self.chars + other.chars;
    }
}

/// The newline count of a text.
pub open spec fn line_count(cs: Seq<char>) -> nat
    decreases cs.len(),
{
    if cs.len() == 0 {
        0
    } else {
        line_count(cs.drop_last()) + if cs.last() == '\n' {
            1nat
        } else {
            0nat
        }
    }
}

/// Whether a word is open after scanning `cs`, one having been open
/// already (`in_word`) when the scan began.
pub open spec fn end_in_word(cs: Seq<char>, in_word: bool) -> bool {
    if cs.len() == 0 {
        in_word
    } else {
        !is_unicode_ws(cs.last())
    }
}

/// The count of words that begin within `cs`: maximal runs of
/// non-whitespace characters, the first not counted where a word was
/// already open when the scan began.
pub open spec fn word_count(cs: Seq<char>, in_word: bool) -> nat
    decreases cs.len(),
{
    if cs.len() == 0 {
        0
    } else {
        word_count(cs.drop_last(), in_word) + if !is_unicode_ws(cs.last()) && !end_in_word(
            cs.drop_last(),
            in_word,
        ) {
            1nat
        } else {
            0nat
        }
    }
}

/// No text holds more newlines or words than characters.
pub proof fn lemma_counts_le_len(cs: Seq<char>, in_word: bool)
    ensures
        line_count(cs) <= cs.len(),
        word_count(cs, in_word) <= cs.len(),
    decreases cs.len(),
{
    if cs.len() > 0 {
        lemma_counts_le_len(cs.drop_last(), in_word);
    }
}

/// Folds one chunk of text into the counts: each character is counted,
/// each newline, and each word that begins in the chunk; `in_word` says
/// whether a word was open at the chunk's start, and the result whether
/// one is open at its end. Bytes are left to the caller, which knows how
/// many it read.
pub fn scan_text(stats: &mut FileStats, text: &str, in_word: bool) -> (out: bool)
    requires
        old(stats).lines + text@.len() <= usize::MAX,
        old(stats).words + text@.len() <= usize::MAX,
        old(stats).chars + text@.len() <= usize::MAX,
    ensures
        final(stats).bytes == old(stats).bytes,
        final(stats).lines == old(stats).lines + line_count(text@),
        final(stats).words == old(stats).words + word_count(text@, in_word),
        final(stats).chars == old(stats).chars + text@.len(),
        out == end_in_word(text@, in_word),
{
    let ghost cs = text@;
    let len = text.unicode_len();
    let mut inw = in_word;
    let mut i: usize = 0;
    while i < len
        invariant
            i <= len,
            len == cs.len(),
            cs == text@,
            stats.bytes == old(stats).bytes,
            stats.lines == old(stats).lines + line_count(cs.take(i as int)),
            stats.words == old(stats).words + word_count(cs.take(i as int), in_word),
            stats.chars == old(stats).chars + i,
            inw == end_in_word(cs.take(i as int), in_word),
            old(stats).lines + cs.len() <= usize::MAX,
            old(stats).words + cs.len() <= usize::MAX,
            old(stats).chars + cs.len() <= usize::MAX,
        decreases len - i,
    {
        let c = text.get_char(i);
        proof {
            lemma_counts_le_len(cs.take(i as int), in_word);
            assert(cs.take(i as int).len() == i as int);
            assert(cs.take(i as int + 1).drop_last() =~= cs.take(i as int));
            assert(cs.take(i as int + 1).last() == c);
        }
        scan_step(stats, c, &mut inw);
        i = i + 1;
    }
    proof {
        assert(cs.take(len as int) =~= cs);
    }
    inw
}

/// One character's effect on the counts and the open-word state.
fn scan_step(stats: &mut FileStats, c: char, inw: &mut bool)
    requires
        old(stats).lines < usize::MAX,
        old(stats).words < usize::MAX,
        old(stats).chars < usize::MAX,
    ensures
        final(stats).bytes == old(stats).bytes,
        final(stats).chars == old(stats).chars + 1,
        final(stats).lines == old(stats).lines + if c == '\n' {
            1int
        } else {
            0int
        },
        final(stats).words == old(stats).words + if !is_unicode_ws(c) && !*old(inw) {
            1int
        } else {
            0int
        },
        *final(inw) == !is_unicode_ws(c),
{
    stats.chars = stats.chars + 1;
    if c == '\n' {
        stats.lines = stats.lines + 1;
    }
    if c.is_whitespace() {
        *inw = false;
    } else {
        if !*inw {
            stats.words = stats.words + 1;
        }
        *inw = true;
    }
}

/// `n` spaces.
pub open spec fn spaces(n: nat) -> Seq<char> {
    Seq::new(n, |i: int| ' ')
}

/// The decimal rendering of a count, right-aligned to eight columns.
pub open spec fn padded(n: nat) -> Seq<char> {
    let d = dec_digits(n);
    if d.len() >= 8 {
        d
    } else {
        spaces((8 - d.len()) as nat) + d
    }
}

/// Renders a count right-aligned to eight columns.
fn pad_count(n: u64) -> (r: String)
    ensures
        r@ == padded(n as nat),
{
    let mut digits = String::new();
    push_dec(&mut digits, n);
    proof {
        assert(digits@ =~= dec_digits(n as nat));
    }
    let dlen = digits.as_str().unicode_len();
    let mut out = String::new();
    let mut k: usize = dlen;
    proof {
        assert(out@ =~= spaces(0));
    }
    while k < 8
        invariant
            dlen <= k,
            k <= 8 || k == dlen,
            out@ == spaces((k - dlen) as nat),
        decreases 8 - k,
    {
        out.push(' ');
        k = k + 1;
        proof {
            assert(out@ =~= spaces((k - dlen) as nat));
        }
    }
    out.append(digits.as_str());
    proof {
        assert(out@ =~= padded(n as nat));
    }
    out
}

/// Whether the flag was given.
fn flag_set(flags: &Vec<char>, c: char) -> (r: bool)
    ensures
        r == flags@.contains(c),
{
    let n = flags.len();
    let mut i: usize = 0;
    while i < n
        invariant
            i <= n,
            n == flags@.len(),
            forall|j: int| 0 <= j < i ==> flags@[j] != c,
        decreases n - i,
    {
        if flags[i] == c {
            return true;
        }
        i = i + 1;
    }
    false
}

/// One line of output for a set of counts: with no flags, lines, words
/// and bytes, each right-aligned to eight columns and separated by one
/// space; with flags, the chosen counts in the fixed order lines, words,
/// characters, bytes, unseparated; then a space and the file name where
/// one is given. Flags other than these four are ignored.
pub open spec fn spec_stats_line(
    s: FileStats,
    flags: Seq<char>,
    filename: Option<Seq<char>>,
) -> Seq<char> {
    let body = if flags.len() == 0 {
        padded(s.lines as nat) + " "@ + padded(s.words as nat) + " "@ + padded(s.bytes as nat)
    } else {
        (if flags.contains('l') {
            padded(s.lines as nat)
        } else {
            Seq::empty()
        }) + (if flags.contains('w') {
            padded(s.words as nat)
        } else {
            Seq::empty()
        }) + (if flags.contains('m') {
            padded(s.chars as nat)
        } else {
            Seq::empty()
        }) + (if flags.contains('c') {
            padded(s.bytes as nat)
        } else {
            Seq::empty()
        })
    };
    match filename {
        Some(f) => body + " "@ + f,
        None => body,
    }
}

/// Renders one line of counts, as `spec_stats_line` lays it out.
pub fn render_stats(stats: &FileStats, flags: &Vec<char>, filename: Option<&str>) -> (r: String)
    ensures
        r@ == spec_stats_line(*stats, flags@, match filename {
            Some(f) => Some(f@),
            None => None,
        }),
{
    let mut out = String::new();
    if flags.len() == 0 {
        out.append(pad_count(stats.lines as u64).as_str());
        out.append(" ");
        out.append(pad_count(stats.words as u64).as_str());
        out.append(" ");
        out.append(pad_count(stats.bytes).as_str());
    } else {
        if flag_set(flags, 'l') {
            out.append(pad_count(stats.lines as u64).as_str());
        }
        if flag_set(flags, 'w') {
            out.append(pad_count(stats.words as u64).as_str());
        }
        if flag_set(flags, 'm') {
            out.append(pad_count(stats.chars as u64).as_str());
        }
        if flag_set(flags, 'c') {
            out.append(pad_count(stats.bytes).as_str());
        }
    }
    match filename {
        Some(f) => {
            out.append(" ");
            out.append(f);
        },
        None => {},
    }
    proof {
        assert(out@ =~= spec_stats_line(*stats, flags@, match filename {
            Some(f) => Some(f@),
            None => None::<Seq<char>>,
        }));
    }
    out
}

} // verus!
