//! The source files of a compilation, kept for rendering diagnostics.

use crate::pos::FileId;
use codespan_reporting::files::{Error, Files, SimpleFiles};
use core::ops::Range;
use vstd::prelude::*;
use vstd::slice::slice_subrange;
use vstd::string::*;
use vstd::utf8::{
    decode_first_scalar, decode_utf8, decode_utf8_encode_utf8, encode_utf8,
    is_ascii_chars_encode_utf8, pop_first_scalar, utf8_byte_ranges_bitwise, valid_first_scalar,
    valid_utf8,
};

verus! {

// =============================================================================
// Text for diagnostics

/// The length of the longest prefix of the first `n` bytes that is UTF-8.
pub open spec fn valid_prefix_len(s: Seq<u8>, n: nat) -> nat
    decreases n,
{
    if n == 0 || valid_utf8(s.take(n as int)) {
        n
    } else {
        valid_prefix_len(s, (n - 1) as nat)
    }
}

/// How many bytes are UTF-8 before the first bad sequence.
pub open spec fn valid_up_to(s: Seq<u8>) -> nat {
    valid_prefix_len(s, s.len())
}

/// What `std::str::Utf8Error::error_len` is for bytes that start with a bad sequence: the length of
/// the sequence, or nothing if it may only be cut short by the end.
pub uninterp spec fn error_len(s: Seq<u8>) -> Option<usize>;

/// How many bytes the first bad sequence has.
pub open spec fn num_bad(s: Seq<u8>) -> int {
    let rest = s.len() - valid_up_to(s);
    match error_len(s.skip(valid_up_to(s) as int)) {
        Some(n) => if 0 < n <= rest {
            n as int
        } else {
            rest
        },
        None => rest,
    }
}

/// A number of question marks.
pub open spec fn question_marks(n: int) -> Seq<char>
    recommends
        0 <= n,
{
    Seq::new(n as nat, |i: int| '?')
}

/// The text of a source file with each byte of a bad sequence replaced by a question mark.
pub open spec fn diagnostic_text(s: Seq<u8>) -> Seq<char>
    decreases s.len(),
{
    if valid_utf8(s) {
        decode_utf8(s)
    } else {
        let good = valid_up_to(s) as int;
        let bad = num_bad(s);
        if 0 <= good && 0 < bad && good + bad <= s.len() {
            decode_utf8(s.take(good)) + question_marks(bad) + diagnostic_text(s.skip(good + bad))
        } else {
            seq![]
        }
    }
}

/// Whether a byte of a source file belongs to a bad sequence.
pub open spec fn in_bad_sequence(s: Seq<u8>, i: int) -> bool
    decreases s.len(),
{
    if valid_utf8(s) {
        false
    } else {
        let good = valid_up_to(s) as int;
        let bad = num_bad(s);
        if 0 <= good && 0 < bad && good + bad <= s.len() {
            good <= i && (i < good + bad || in_bad_sequence(s.skip(good + bad), i - good - bad))
        } else {
            false
        }
    }
}

/// The longest valid prefix is valid, no longer one is, and all bytes are in it only if all are
/// UTF-8.
proof fn lemma_valid_prefix(s: Seq<u8>, n: nat)
    requires
        n <= s.len(),
    ensures
        valid_prefix_len(s, n) <= n,
        valid_utf8(s.take(valid_prefix_len(s, n) as int)),
        forall|i: int|
            valid_prefix_len(s, n) < i <= n ==> !valid_utf8(#[trigger] s.take(i)),
    decreases n,
{
    if n == 0 {
        assert(s.take(0).len() == 0);
    } else if !valid_utf8(s.take(n as int)) {
        lemma_valid_prefix(s, (n - 1) as nat);
    }
}

/// The first bad sequence is not empty, and lies behind a valid prefix.
pub proof fn lemma_first_bad_sequence(s: Seq<u8>)
    requires
        !valid_utf8(s),
    ensures
        valid_up_to(s) < s.len(),
        valid_utf8(s.take(valid_up_to(s) as int)),
        0 < num_bad(s),
        valid_up_to(s) + num_bad(s) <= s.len(),
{
    lemma_valid_prefix(s, s.len());
    assert(s.take(s.len() as int) =~= s);
}

/// Only one index has a valid prefix below it and none above.
proof fn lemma_valid_up_to(s: Seq<u8>, n: int)
    requires
        0 <= n <= s.len(),
        valid_utf8(s.take(n)),
        forall|i: int| n < i <= s.len() ==> !valid_utf8(#[trigger] s.take(i)),
    ensures
        valid_up_to(s) == n,
{
    lemma_valid_prefix(s, s.len());
    let m = valid_up_to(s) as int;
    assert(valid_utf8(s.take(m)));
    if m < n {
        assert(!valid_utf8(s.take(n)));
    }
}

/// `std::str::from_utf8`: bytes that are UTF-8 give the text that they encode.  For others
/// `valid_up_to` is the greatest index below which they are UTF-8, and `error_len` is the length of
/// the bad sequence that starts there, which depends on nothing before it, is not empty and ends
/// within the bytes.  Without a length, the bytes end one to three bytes behind the index.  Which
/// bytes can be in a bad sequence behind its first one is not said.
#[verifier::external_body]
pub(crate) fn from_utf8(s: &[u8]) -> (r: Result<&str, (usize, Option<usize>)>)
    ensures
        match r {
            Ok(text) => valid_utf8(s@) && text@ == decode_utf8(s@),
            Err((good, len)) => {
                &&& !valid_utf8(s@)
                &&& good < s@.len()
                &&& valid_utf8(s@.take(good as int))
                &&& forall|i: int| good < i <= s@.len() ==> !valid_utf8(#[trigger] s@.take(i))
                &&& len == error_len(s@.skip(good as int))
                &&& len matches Some(n) ==> 0 < n && good + n <= s@.len()
                &&& len is None ==> s@.len() <= good + 3
            },
        },
{
    match std::str::from_utf8(s) {
        Ok(text) => Ok(text),
        Err(e) => Err((e.valid_up_to(), e.error_len())),
    }
}

/// Append a piece of good text and a question mark for each bad byte behind it.
pub fn push_replaced(out: &mut String, good: &str, num_bad: usize)
    ensures
        final(out)@ == old(out)@ + good@ + question_marks(num_bad as int),
{
    out.append(good);
    let mut i: usize = 0;
    proof {
        reveal_strlit("?");
        assert(out@ =~= old(out)@ + good@ + question_marks(0));
    }
    while i < num_bad
        invariant
            i <= num_bad,
            out@ == old(out)@ + good@ + question_marks(i as int),
        decreases num_bad - i,
    {
        proof {
            reveal_strlit("?");
        }
        let ghost before = out@;
        out.append("?");
        i = i + 1;
        assert(out@ =~= old(out)@ + good@ + question_marks(i as int));
    }
}

/// Lossily decode UTF-8 in a way that preserves byte positions.
///
/// The output of this is suitable for rendering spans in error messages.
///
/// It accomplishes this by using `?` as the replacement character, which only takes a single byte
/// and can thus easily fill arbitrarily-sized spaces, unlike `U+FFFD REPLACEMENT CHARACTER`
/// which takes three bytes.
pub fn prepare_diagnostic_text_source(s: &[u8]) -> (r: String)
    ensures
        r@ == diagnostic_text(s@),
        encode_utf8(r@).len() == s@.len(),
        forall|i: int|
            0 <= i < s@.len() ==> #[trigger] encode_utf8(r@)[i] == if in_bad_sequence(s@, i) {
                QUESTION_MARK
            } else {
                s@[i]
            },
{
    let mut out = String::new();
    let mut remaining: &[u8] = s;
    proof {
        law_diagnostic_text_keeps_positions(s@);
        assert(Seq::<char>::empty() + diagnostic_text(s@) =~= diagnostic_text(s@));
        assert(out@ =~= Seq::<char>::empty());
    }
    loop
        invariant
            out@ + diagnostic_text(remaining@) == diagnostic_text(s@),
            encode_utf8(diagnostic_text(s@)).len() == s@.len(),
            forall|i: int|
                0 <= i < s@.len() ==> #[trigger] encode_utf8(diagnostic_text(s@))[i]
                    == if in_bad_sequence(s@, i) {
                    QUESTION_MARK
                } else {
                    s@[i]
                },
        decreases remaining@.len(),
    {
        match from_utf8(remaining) {
            Ok(text) => {
                out.append(text);
                return out;
            },
            Err((good, len)) => {
                proof {
                    lemma_valid_up_to(remaining@, good as int);
                    lemma_first_bad_sequence(remaining@);
                    assert(remaining@.subrange(0, good as int) =~= remaining@.take(good as int));
                }
                let total: usize = remaining.len();
                let bad: usize = match len {
                    Some(n) => n,
                    None => total - good,
                };
                let ghost before = out@;
                let ghost r = remaining@;
                match from_utf8(slice_subrange(remaining, 0, good)) {
                    Ok(valid) => push_replaced(&mut out, valid, bad),
                    Err(_) => {},
                }
                remaining = slice_subrange(remaining, good + bad, total);
                proof {
                    assert(bad == num_bad(r));
                    assert(remaining@ =~= r.skip(good + bad));
                    assert(out@ + diagnostic_text(remaining@) =~= before + diagnostic_text(r));
                }
            },
        }
    }
}

/// The byte that encodes a question mark.
pub const QUESTION_MARK: u8 = 0x3F;

/// Text made of two pieces is encoded as the encodings of the two.
pub proof fn lemma_encode_concat(a: Seq<char>, b: Seq<char>)
    ensures
        encode_utf8(a + b) == encode_utf8(a) + encode_utf8(b),
    decreases a.len(),
{
    if a.len() == 0 {
        assert(a + b =~= b);
        assert(encode_utf8(a) + encode_utf8(b) =~= encode_utf8(b));
    } else {
        lemma_encode_concat(a.drop_first(), b);
        assert((a + b).drop_first() =~= a.drop_first() + b);
        assert((a + b)[0] == a[0]);
        assert(encode_utf8(a + b) =~= encode_utf8(a) + encode_utf8(b));
    }
}

/// The text for diagnostics has as many bytes as the source.  Each is a question mark if it belongs
/// to a bad sequence, and that of the source otherwise.
pub proof fn law_diagnostic_text_keeps_positions(s: Seq<u8>)
    ensures
        encode_utf8(diagnostic_text(s)).len() == s.len(),
        forall|i: int|
            0 <= i < s.len() ==> #[trigger] encode_utf8(diagnostic_text(s))[i]
                == if in_bad_sequence(s, i) {
                QUESTION_MARK
            } else {
                s[i]
            },
    decreases s.len(),
{
    if valid_utf8(s) {
        decode_utf8_encode_utf8(s);
    } else {
        lemma_first_bad_sequence(s);
        let good = valid_up_to(s) as int;
        let bad = num_bad(s);
        let head = s.take(good);
        let marks = question_marks(bad);
        let tail = s.skip(good + bad);
        law_diagnostic_text_keeps_positions(tail);
        decode_utf8_encode_utf8(head);
        is_ascii_chars_encode_utf8(marks);
        lemma_encode_concat(decode_utf8(head), marks);
        lemma_encode_concat(decode_utf8(head) + marks, diagnostic_text(tail));
        let out = encode_utf8(diagnostic_text(s));
        assert(out == head + encode_utf8(marks) + encode_utf8(diagnostic_text(tail)));
        assert forall|i: int| 0 <= i < s.len() implies #[trigger] out[i] == if in_bad_sequence(s, i) {
            QUESTION_MARK
        } else {
            s[i]
        } by {
            if i < good {
            } else if i < good + bad {
                assert(out[i] == encode_utf8(marks)[i - good]);
                assert(marks[i - good] == '?');
            } else {
                assert(out[i] == encode_utf8(diagnostic_text(tail))[i - good - bad]);
                assert(tail[i - good - bad] == s[i]);
            }
        }
    }
}

/// Behind good text, bytes are good text just when they are so alone, and they are decoded alike.
proof fn lemma_behind_text(v: Seq<u8>, w: Seq<u8>)
    requires
        valid_utf8(v),
    ensures
        valid_utf8(v + w) == valid_utf8(w),
        valid_utf8(w) ==> decode_utf8(v + w) == decode_utf8(v) + decode_utf8(w),
    decreases v.len(),
{
    if v.len() == 0 {
        assert(v + w =~= w);
        assert(decode_utf8(v) + decode_utf8(w) =~= decode_utf8(w));
    } else {
        let rest = pop_first_scalar(v);
        assert(pop_first_scalar(v + w) =~= rest + w);
        lemma_behind_text(rest, w);
        if valid_utf8(w) {
            let first = seq![decode_first_scalar(v) as char];
            assert(decode_utf8(v + w) == first + decode_utf8(rest + w));
            assert(first + (decode_utf8(rest) + decode_utf8(w)) =~= (first + decode_utf8(rest))
                + decode_utf8(w));
        }
    }
}

/// A good prefix comes through as it is, and what is behind it is treated as it would be alone.
pub proof fn law_diagnostic_text_keeps_good_prefix(v: Seq<u8>, w: Seq<u8>)
    requires
        valid_utf8(v),
    ensures
        diagnostic_text(v + w) == decode_utf8(v) + diagnostic_text(w),
{
    lemma_behind_text(v, w);
    if !valid_utf8(w) {
        let good = valid_up_to(w) as int;
        let n = v.len() as int;
        let s = v + w;
        lemma_first_bad_sequence(w);
        lemma_valid_prefix(w, w.len());
        assert(s.take(n + good) =~= v + w.take(good));
        lemma_behind_text(v, w.take(good));
        assert forall|i: int| n + good < i <= s.len() implies !valid_utf8(
            #[trigger] s.take(i),
        ) by {
            assert(s.take(i) =~= v + w.take(i - n));
            lemma_behind_text(v, w.take(i - n));
        }
        lemma_valid_up_to(s, n + good);
        assert(s.skip(n + good) =~= w.skip(good));
        let bad = num_bad(w);
        assert(s.skip(n + good + bad) =~= w.skip(good + bad));
        assert(diagnostic_text(s) =~= decode_utf8(v) + diagnostic_text(w));
    }
}

/// Replacing what is bad twice changes nothing more.
pub proof fn law_diagnostic_text_idempotent(s: Seq<u8>)
    ensures
        diagnostic_text(encode_utf8(diagnostic_text(s))) == diagnostic_text(s),
{
    law_diagnostic_text_of_utf8(diagnostic_text(s));
}

/// No bad sequence starts with an ASCII character.
pub proof fn law_bad_sequence_does_not_start_in_ascii(s: Seq<u8>)
    requires
        !valid_utf8(s),
    ensures
        s[valid_up_to(s) as int] >= 0x80,
{
    lemma_valid_prefix(s, s.len());
    lemma_first_bad_sequence(s);
    let good = valid_up_to(s) as int;
    if s[good] < 0x80 {
        let one = seq![s[good]];
        assert(pop_first_scalar(one).len() == 0);
        assert(valid_first_scalar(one)) by {
            let b = s[good];
            utf8_byte_ranges_bitwise(b);
        }
        assert(valid_utf8(pop_first_scalar(one)));
        assert(valid_utf8(one));
        lemma_behind_text(s.take(good), one);
        assert(s.take(good + 1) =~= s.take(good) + one);
        assert(!valid_utf8(s.take(good + 1)));
    }
}

/// An ASCII character can belong to a bad sequence only behind another byte of one.
pub proof fn law_ascii_is_bad_only_behind_bad_bytes(s: Seq<u8>, i: int)
    requires
        0 <= i < s.len(),
        s[i] < 0x80,
        in_bad_sequence(s, i),
    ensures
        0 < i,
        in_bad_sequence(s, i - 1),
    decreases s.len(),
{
    law_bad_sequence_does_not_start_in_ascii(s);
    let end = valid_up_to(s) as int + num_bad(s);
    if i >= end {
        law_ascii_is_bad_only_behind_bad_bytes(s.skip(end), i - end);
    }
}

/// Text that is UTF-8 already is kept as it is.
pub proof fn law_diagnostic_text_of_utf8(text: Seq<char>)
    ensures
        diagnostic_text(encode_utf8(text)) == text,
{
    vstd::utf8::encode_utf8_valid_utf8(text);
    vstd::utf8::encode_utf8_decode_utf8(text);
}

// =============================================================================
// The files

/// `codespan_reporting::files::SimpleFiles`, a list of files with their names.
#[verifier::external_type_specification]
#[verifier::external_body]
#[verifier::reject_recursive_types(Name)]
#[verifier::reject_recursive_types(Source)]
pub struct ExSimpleFiles<Name, Source>(codespan_reporting::files::SimpleFiles<Name, Source>);

/// The names and texts of the files, in the order in which they were added.
pub uninterp spec fn file_entries(files: SimpleFiles<String, String>) -> Seq<(Seq<char>, Seq<char>)>;

/// Why a place in a file cannot be looked up.
#[derive(Debug, Clone, Copy, PartialEq, Eq, Structural)]
pub enum FilesError {
    /// A required file is not in the database.
    FileMissing,
    /// The file does not contain the line.
    LineTooLarge { given: usize, max: usize },
    /// Something else that the lookup of names, texts and lines has no use for.
    Other,
}

/// How many newlines there are in some bytes.
pub open spec fn num_newlines(bytes: Seq<u8>) -> nat
    decreases bytes.len(),
{
    if bytes.len() == 0 {
        0
    } else {
        num_newlines(bytes.drop_last()) + (if bytes.last() == 0x0A {
            1nat
        } else {
            0
        })
    }
}

/// Where the lines of some bytes start: at the beginning, and behind each newline.
pub open spec fn line_starts(bytes: Seq<u8>) -> Seq<int>
    decreases bytes.len(),
{
    if bytes.len() == 0 {
        seq![0]
    } else if bytes.last() == 0x0A {
        line_starts(bytes.drop_last()).push(bytes.len() as int)
    } else {
        line_starts(bytes.drop_last())
    }
}

/// The number of the line that holds a byte, counted from zero.  What is past the end is on the last
/// line.
pub open spec fn line_index_of(bytes: Seq<u8>, byte_index: int) -> int {
    num_newlines(
        bytes.take(
            if byte_index < bytes.len() {
                byte_index
            } else {
                bytes.len() as int
            },
        ),
    ) as int
}

/// The bytes of a line, with the newline at its end.
pub open spec fn line_range_of(bytes: Seq<u8>, line: int) -> (int, int) {
    let starts = line_starts(bytes);
    (starts[line], if line + 1 < starts.len() {
        starts[line + 1]
    } else {
        bytes.len() as int
    })
}

/// `SimpleFiles::new`: there are no files yet.
#[verifier::external_body]
fn new_files() -> (r: SimpleFiles<String, String>)
    ensures
        file_entries(r) == Seq::<(Seq<char>, Seq<char>)>::empty(),
{
    SimpleFiles::new()
}

/// `SimpleFiles::add`: the file goes to the end, and its index is returned.
#[verifier::external_body]
fn add_file(files: &mut SimpleFiles<String, String>, name: String, source: String) -> (r: usize)
    ensures
        r == file_entries(*old(files)).len(),
        file_entries(*final(files)) == file_entries(*old(files)).push((name@, source@)),
{
    files.add(name, source)
}

/// `Files::name` for `SimpleFiles`: the name of the file at an index, or the error for a missing
/// file.
#[verifier::external_body]
fn file_name(files: &SimpleFiles<String, String>, id: usize) -> (r: Result<String, FilesError>)
    ensures
        match r {
            Ok(name) => id < file_entries(*files).len() && name@ == file_entries(
                *files,
            )[id as int].0,
            Err(e) => id >= file_entries(*files).len() && e == FilesError::FileMissing,
        },
{
    match files.name(id) {
        Ok(name) => Ok(name),
        Err(Error::FileMissing) => Err(FilesError::FileMissing),
        Err(_) => Err(FilesError::Other),
    }
}

/// `Files::source` for `SimpleFiles`: the text of the file at an index, or the error for a missing
/// file.
#[verifier::external_body]
fn file_source(files: &SimpleFiles<String, String>, id: usize) -> (r: Result<&str, FilesError>)
    ensures
        match r {
            Ok(source) => id < file_entries(*files).len() && source@ == file_entries(
                *files,
            )[id as int].1,
            Err(e) => id >= file_entries(*files).len() && e == FilesError::FileMissing,
        },
{
    match files.source(id) {
        Ok(source) => Ok(source),
        Err(Error::FileMissing) => Err(FilesError::FileMissing),
        Err(_) => Err(FilesError::Other),
    }
}

/// `Files::line_index` for `SimpleFiles`: the number of the line that holds a byte, or the error for
/// a missing file.
#[verifier::external_body]
fn file_line_index(
    files: &SimpleFiles<String, String>,
    id: usize,
    byte_index: usize,
) -> (r: Result<usize, FilesError>)
    ensures
        match r {
            Ok(line) => id < file_entries(*files).len() && line == line_index_of(
                encode_utf8(file_entries(*files)[id as int].1),
                byte_index as int,
            ),
            Err(e) => id >= file_entries(*files).len() && e == FilesError::FileMissing,
        },
{
    match files.line_index(id, byte_index) {
        Ok(line) => Ok(line),
        Err(Error::FileMissing) => Err(FilesError::FileMissing),
        Err(_) => Err(FilesError::Other),
    }
}

/// `Files::line_range` for `SimpleFiles`: the bytes of a line.  For a line behind the last one the
/// error gives the first index that has no start, which is the one behind the line where the line is
/// just behind the last.
#[verifier::external_body]
fn file_line_range(
    files: &SimpleFiles<String, String>,
    id: usize,
    line_index: usize,
) -> (r: Result<Range<usize>, FilesError>)
    ensures
        r == line_range_result(file_entries(*files), id, line_index),
{
    match files.line_range(id, line_index) {
        Ok(range) => Ok(range),
        Err(Error::FileMissing) => Err(FilesError::FileMissing),
        Err(Error::LineTooLarge { given, max }) => Err(FilesError::LineTooLarge { given, max }),
        Err(_) => Err(FilesError::Other),
    }
}

/// What looking up a line gives.
pub open spec fn line_range_result(
    entries: Seq<(Seq<char>, Seq<char>)>,
    id: usize,
    line_index: usize,
) -> Result<Range<usize>, FilesError> {
    if id >= entries.len() {
        Err(FilesError::FileMissing)
    } else {
        let bytes = encode_utf8(entries[id as int].1);
        let n = line_starts(bytes).len();
        if line_index < n {
            let (start, end) = line_range_of(bytes, line_index as int);
            Ok(Range { start: start as usize, end: end as usize })
        } else if line_index == n {
            Err(FilesError::LineTooLarge { given: (n + 1) as usize, max: (n - 1) as usize })
        } else {
            Err(FilesError::LineTooLarge { given: line_index, max: (n - 1) as usize })
        }
    }
}

/// Source files that need not be UTF-8.
///
/// This provides source text that has been lossily modified to be valid UTF-8, and which should
/// only be used for diagnostic purposes.
pub struct NonUtf8Files {
    inner: SimpleFiles<String, String>,
}

/// The number of the file at an index.  Numbers begin at one; the files behind the last number have
/// none.
pub open spec fn shifted(index: int) -> FileId {
    if 0 <= index < u32::MAX {
        Some((index + 1) as u32)
    } else {
        None
    }
}

impl View for NonUtf8Files {
    /// The names and texts of the files.
    type V = Seq<(Seq<char>, Seq<char>)>;

    closed spec fn view(&self) -> Seq<(Seq<char>, Seq<char>)> {
        file_entries(self.inner)
    }
}

/// The file that has a number.
pub open spec fn entry_of(
    entries: Seq<(Seq<char>, Seq<char>)>,
    file_id: FileId,
) -> Option<(Seq<char>, Seq<char>)> {
    match file_id {
        Some(n) => if 0 < n <= entries.len() {
            Some(entries[n - 1])
        } else {
            None
        },
        None => None,
    }
}

impl NonUtf8Files {
    pub fn new() -> (r: Self)
        ensures
            r@ == Seq::<(Seq<char>, Seq<char>)>::empty(),
    {
        NonUtf8Files { inner: new_files() }
    }

    /// Add a file, and give it a number.
    pub fn add(&mut self, name: &str, source: &[u8]) -> (r: FileId)
        ensures
            r == shifted(old(self)@.len() as int),
            final(self)@ == old(self)@.push((name@, diagnostic_text(source@))),
    {
        let text = prepare_diagnostic_text_source(source);
        let index: usize = add_file(&mut self.inner, name.to_owned(), text);
        Self::shift_file_id(index)
    }

    fn unshift_file_id(file_id: FileId) -> (r: Result<usize, FilesError>)
        ensures
            match r {
                Ok(index) => file_id is Some && index == file_id->0 - 1,
                Err(e) => (file_id is None || file_id == Some(0u32)) && e
                    == FilesError::FileMissing,
            },
    {
        // produce an error for no file; such spans aren't fit for diagnostics
        match file_id {
            Some(n) => if n > 0 {
                Ok((n - 1) as usize)
            } else {
                Err(FilesError::FileMissing)
            },
            None => Err(FilesError::FileMissing),
        }
    }

    fn shift_file_id(index: usize) -> (r: FileId)
        ensures
            r == shifted(index as int),
    {
        if index < u32::MAX as usize {
            Some(index as u32 + 1)
        } else {
            None
        }
    }

    /// The name of a file.
    pub fn name(&self, file_id: FileId) -> (r: Result<String, FilesError>)
        ensures
            match r {
                Ok(name) => entry_of(self@, file_id) matches Some(entry) && name@ == entry.0,
                Err(e) => entry_of(self@, file_id) is None && e == FilesError::FileMissing,
            },
    {
        match Self::unshift_file_id(file_id) {
            Ok(index) => file_name(&self.inner, index),
            Err(e) => Err(e),
        }
    }

    /// The text of a file.
    pub fn source(&self, file_id: FileId) -> (r: Result<&str, FilesError>)
        ensures
            match r {
                Ok(source) => entry_of(self@, file_id) matches Some(entry) && source@ == entry.1,
                Err(e) => entry_of(self@, file_id) is None && e == FilesError::FileMissing,
            },
    {
        match Self::unshift_file_id(file_id) {
            Ok(index) => file_source(&self.inner, index),
            Err(e) => Err(e),
        }
    }

    /// The number of the line that holds a byte, counted from zero.
    pub fn line_index(&self, file_id: FileId, byte_index: usize) -> (r: Result<usize, FilesError>)
        ensures
            match r {
                Ok(line) => entry_of(self@, file_id) matches Some(entry) && line == line_index_of(
                    encode_utf8(entry.1),
                    byte_index as int,
                ),
                Err(e) => entry_of(self@, file_id) is None && e == FilesError::FileMissing,
            },
    {
        match Self::unshift_file_id(file_id) {
            Ok(index) => file_line_index(&self.inner, index, byte_index),
            Err(e) => Err(e),
        }
    }

    /// The bytes of a line.
    pub fn line_range(&self, file_id: FileId, line_index: usize) -> (r: Result<
        Range<usize>,
        FilesError,
    >)
        ensures
            match file_id {
                Some(n) => if n > 0 {
                    r == line_range_result(self@, (n - 1) as usize, line_index)
                } else {
                    r == Err::<Range<usize>, FilesError>(FilesError::FileMissing)
                },
                None => r == Err::<Range<usize>, FilesError>(FilesError::FileMissing),
            },
    {
        match Self::unshift_file_id(file_id) {
            Ok(index) => file_line_range(&self.inner, index, line_index),
            Err(e) => Err(e),
        }
    }
}

/// A file that was added is found again under its number, also after others were added.
pub proof fn law_added_file_is_found(
    before: Seq<(Seq<char>, Seq<char>)>,
    file: (Seq<char>, Seq<char>),
    others: Seq<(Seq<char>, Seq<char>)>,
)
    requires
        before.len() < u32::MAX,
    ensures
        entry_of(before.push(file) + others, shifted(before.len() as int)) == Some(file),
{
}

/// A line holds the bytes that are on it, and no others.
pub proof fn law_lines_hold_their_bytes(bytes: Seq<u8>, byte_index: int)
    requires
        0 <= byte_index < bytes.len(),
    ensures
        ({
            let line = line_index_of(bytes, byte_index);
            let (start, end) = line_range_of(bytes, line);
            line < line_starts(bytes).len() && start <= byte_index < end
        }),
{
    lemma_line_of(bytes, byte_index);
}

/// Lines start in ascending order, there is one for each newline and one more, and the newlines
/// before a byte count the lines that start at or before it.
proof fn lemma_line_of(bytes: Seq<u8>, b: int)
    requires
        0 <= b <= bytes.len(),
    ensures
        line_starts(bytes).len() == num_newlines(bytes) + 1,
        num_newlines(bytes.take(b)) < line_starts(bytes).len(),
        line_starts(bytes)[num_newlines(bytes.take(b)) as int] <= b,
        num_newlines(bytes.take(b)) + 1 < line_starts(bytes).len() ==> b < line_starts(
            bytes,
        )[num_newlines(bytes.take(b)) as int + 1],
        forall|i: int|
            0 <= i < line_starts(bytes).len() ==> 0 <= #[trigger] line_starts(bytes)[i]
                <= bytes.len(),
    decreases bytes.len(),
{
    if bytes.len() == 0 {
        assert(bytes.take(b) =~= bytes);
    } else {
        let init = bytes.drop_last();
        if b < bytes.len() {
            lemma_line_of(init, b);
            assert(init.take(b) =~= bytes.take(b));
        } else {
            lemma_line_of(init, b - 1);
            assert(bytes.take(b) =~= bytes);
            lemma_line_of(init, init.len() as int);
            assert(init.take(init.len() as int) =~= init);
        }
    }
}

} // verus!
