//! Source-text bookkeeping: UTF-8 byte sizes, encoding detection, and the
//! checks a source text must pass before compilation. Reading a file from
//! storage is left to the program around the library; these functions work
//! on text already in memory.

use vstd::prelude::*;
use vstd::string::{StrSliceExecFns, StringExecFns};
use vstd::utf8::is_ascii_chars;

verus! {

/// A loaded source file: where it came from, its text, its detected
/// encoding label, and its size in bytes.
#[derive(Debug, PartialEq)]
pub struct SourceFile {
    pub path: String,
    pub content: String,
    pub encoding: String,
    pub size_bytes: u32,
}

/// How many bytes UTF-8 uses for one character, by its code point.
pub open spec fn char_utf8_len(c: char) -> int {
    if (c as int) < 0x80 {
        1
    } else if (c as int) < 0x800 {
        2
    } else if (c as int) < 0x10000 {
        3
    } else {
        4
    }
}

/// The UTF-8 byte length of a character sequence.
pub open spec fn spec_utf8_len(s: Seq<char>) -> int
    decreases s.len(),
{
    if s.len() == 0 {
        0
    } else {
        char_utf8_len(s[0]) + spec_utf8_len(s.drop_first())
    }
}

proof fn lemma_utf8_len_take_step(s: Seq<char>, i: int)
    requires
        0 <= i < s.len(),
    ensures
        spec_utf8_len(s.take(i + 1)) == spec_utf8_len(s.take(i)) + char_utf8_len(s[i]),
    decreases i,
{
    if i == 0 {
        assert(s.take(1).drop_first() =~= s.take(0));
        assert(s.take(0) =~= Seq::<char>::empty());
        assert(s.take(1)[0] == s[0]);
    } else {
        lemma_utf8_len_take_step(s.drop_first(), i - 1);
        assert(s.take(i + 1).drop_first() =~= s.drop_first().take(i));
        assert(s.take(i).drop_first() =~= s.drop_first().take(i - 1));
        assert(s.take(i + 1)[0] == s[0]);
        assert(s.take(i)[0] == s[0]);
        assert(s.drop_first().take(i)[i - 1] == s[i]);
    }
}

proof fn lemma_utf8_len_bounds(s: Seq<char>)
    ensures
        s.len() <= spec_utf8_len(s) <= 4 * s.len(),
    decreases s.len(),
{
    if s.len() > 0 {
        lemma_utf8_len_bounds(s.drop_first());
    }
}

proof fn lemma_utf8_len_take_bound(s: Seq<char>, i: int)
    requires
        0 <= i <= s.len(),
    ensures
        spec_utf8_len(s.take(i)) <= spec_utf8_len(s),
    decreases s.len() - i,
{
    if i < s.len() {
        lemma_utf8_len_take_step(s, i);
        lemma_utf8_len_take_bound(s, i + 1);
    } else {
        assert(s.take(i) =~= s);
    }
}

/// The UTF-8 byte length of the text, as an executable count.
fn utf8_len(content: &str) -> (r: u64)
    requires
        spec_utf8_len(content@) <= 0xffff_ffff,
    ensures
        r as int == spec_utf8_len(content@),
{
    let n = content.unicode_len();
    let mut acc: u64 = 0;
    let mut i: usize = 0;
    proof {
        assert(content@.take(0) =~= Seq::<char>::empty());
        lemma_utf8_len_bounds(content@);
    }
    while i < n
        invariant
            i <= n,
            n == content@.len(),
            spec_utf8_len(content@) <= 0xffff_ffff,
            acc as int == spec_utf8_len(content@.take(i as int)),
            acc as int <= spec_utf8_len(content@),
        decreases n - i,
    {
        proof {
            lemma_utf8_len_take_step(content@, i as int);
            lemma_utf8_len_take_bound(content@, i as int + 1);
        }
        let c = content.get_char(i);
        let width: u64 = if (c as u32) < 0x80 {
            1
        } else if (c as u32) < 0x800 {
            2
        } else if (c as u32) < 0x10000 {
            3
        } else {
            4
        };
        acc = acc + width;
        i = i + 1;
    }
    proof {
        assert(content@.take(n as int) =~= content@);
    }
    acc
}

/// The size a source text is accounted at: its UTF-8 byte length for ASCII
/// content, and one byte less for content with any character beyond ASCII.
pub open spec fn spec_file_size(s: Seq<char>) -> int {
    if is_ascii_chars(s) {
        spec_utf8_len(s)
    } else {
        spec_utf8_len(s) - 1
    }
}

/// Calculates the byte size that a source text is accounted at during
/// validation against resource limits: the UTF-8 byte length, less one for
/// content that is not pure ASCII.
pub fn calculate_file_size(content: &str) -> (r: u32)
    requires
        spec_utf8_len(content@) <= 0xffff_ffff,
    ensures
        r as int == spec_file_size(content@),
{
    let size = utf8_len(content);
    if content.is_ascii() {
        size as u32
    } else {
        proof {
            assert(content@.len() > 0);
            lemma_utf8_len_bounds(content@);
        }
        (size - 1) as u32
    }
}

/// The exact UTF-8 byte length of a source text.
pub fn calculate_content_size(content: &str) -> (r: u32)
    requires
        spec_utf8_len(content@) <= 0xffff_ffff,
    ensures
        r as int == spec_utf8_len(content@),
{
    let size = utf8_len(content);
    size as u32
}

/// Whether the text begins with a byte order mark. A Rust text is valid
/// UTF-8, so the UTF-16 marks cannot occur in it; the UTF-8 mark is the
/// single character U+FEFF at the front.
pub open spec fn spec_has_bom(s: Seq<char>) -> bool {
    s.len() > 0 && s[0] == '\u{feff}'
}

/// Detects the encoding label of the given text: `UTF-8-BOM` when it starts
/// with a byte order mark, plain `UTF-8` otherwise.
pub fn detect_encoding(content: &str) -> (r: String)
    ensures
        r@ == (if spec_has_bom(content@) {
            "UTF-8-BOM"@
        } else {
            "UTF-8"@
        }),
{
    if content.unicode_len() > 0 && content.get_char(0) == '\u{feff}' {
        String::from_str("UTF-8-BOM")
    } else {
        String::from_str("UTF-8")
    }
}

/// Checks if the content starts with a byte order mark.
pub fn has_byte_order_mark(content: &str) -> (r: bool)
    ensures
        r == spec_has_bom(content@),
{
    content.unicode_len() > 0 && content.get_char(0) == '\u{feff}'
}

pub open spec fn spec_has_null(s: Seq<char>) -> bool {
    exists|i: int| 0 <= i < s.len() && s[i] == '\0'
}

/// Checks if the content contains any null character (a null byte in its
/// UTF-8 encoding).
pub fn has_null_bytes(content: &str) -> (r: bool)
    ensures
        r == spec_has_null(content@),
{
    let n = content.unicode_len();
    let mut i: usize = 0;
    while i < n
        invariant
            i <= n,
            n == content@.len(),
            forall|j: int| 0 <= j < i ==> content@[j] != '\0',
        decreases n - i,
    {
        if content.get_char(i) == '\0' {
            return true;
        }
        i = i + 1;
    }
    false
}

/// A Unicode non-character: the contiguous block U+FDD0 to U+FDEF, and the
/// code points whose low sixteen bits are FFFE or FFFF.
pub open spec fn spec_is_noncharacter(c: char) -> bool {
    (0xfdd0 <= (c as int) && (c as int) <= 0xfdef) || ((c as u32) & 0xfffe) == 0xfffe
}

pub open spec fn spec_has_noncharacter(s: Seq<char>) -> bool {
    exists|i: int| 0 <= i < s.len() && spec_is_noncharacter(s[i])
}

/// Validates UTF-8 byte sequences for correctness. A text held in a `String`
/// is valid UTF-8 by construction, so this always succeeds; it keeps the
/// pipeline's validation steps explicit.
pub fn validate_utf8_sequences(content: &str) -> (r: Result<(), String>)
    ensures
        r is Ok,
{
    let _ = content;
    Ok(())
}

/// Validates that no character is a Unicode non-character. Surrogate code
/// points cannot occur in a Rust text at all, so non-characters are the one
/// class left to reject.
pub fn validate_unicode_code_points(content: &str) -> (r: Result<(), String>)
    ensures
        match r {
            Ok(_) => !spec_has_noncharacter(content@),
            Err(m) => spec_has_noncharacter(content@) && m@
                == "Source code contains a non-character code point"@,
        },
{
    let n = content.unicode_len();
    let mut i: usize = 0;
    while i < n
        invariant
            i <= n,
            n == content@.len(),
            forall|j: int| 0 <= j < i ==> !spec_is_noncharacter(content@[j]),
        decreases n - i,
    {
        let c = content.get_char(i);
        let cp = c as u32;
        if (0xfdd0 <= cp && cp <= 0xfdef) || (cp & 0xfffe) == 0xfffe {
            return Err(String::from_str("Source code contains a non-character code point"));
        }
        i = i + 1;
    }
    Ok(())
}

/// What source-encoding validation reports: the first failed check among
/// null characters, non-character code points, and a leading byte order
/// mark.
pub open spec fn spec_validate_encoding(s: Seq<char>) -> Result<(), Seq<char>> {
    if spec_has_null(s) {
        Err("Source code contains null bytes which are not permitted"@)
    } else if spec_has_noncharacter(s) {
        Err("Source code contains a non-character code point"@)
    } else if spec_has_bom(s) {
        Err("Source code contains Byte Order Mark (BOM) which is not supported"@)
    } else {
        Ok(())
    }
}

/// Validates that the source text passes the encoding checks: no null
/// characters, no Unicode non-characters, and no leading byte order mark.
pub fn validate_source_encoding(content: &str) -> (r: Result<(), String>)
    ensures
        match spec_validate_encoding(content@) {
            Ok(_) => r is Ok,
            Err(m) => r matches Err(s) && s@ == m,
        },
{
    if has_null_bytes(content) {
        return Err(String::from_str("Source code contains null bytes which are not permitted"));
    }
    if let Err(error_msg) = validate_utf8_sequences(content) {
        return Err(error_msg);
    }
    if let Err(error_msg) = validate_unicode_code_points(content) {
        return Err(error_msg);
    }
    if has_byte_order_mark(content) {
        return Err(
            String::from_str("Source code contains Byte Order Mark (BOM) which is not supported"),
        );
    }
    Ok(())
}

} // verus!
