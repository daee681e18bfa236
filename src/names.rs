//! Rules on file names, spreadsheet column letters and image extensions.

use vstd::prelude::*;
use crate::text::{chars_of, string_of, same_text, is_white, char_is_whitespace};

verus! {

/// A character that a file name may not hold.
pub open spec fn is_forbidden(c: char) -> bool {
    c == '<' || c == '>' || c == ':' || c == '"' || c == '/' || c == '\\' || c == '|' || c == '?'
        || c == '*'
}

/// `s` with each forbidden character replaced by an underscore.
pub open spec fn replace_forbidden(s: Seq<char>) -> Seq<char> {
    s.map_values(|c: char| if is_forbidden(c) { '_' } else { c })
}

/// What is trimmed: dots, or else whitespace.
pub open spec fn trimmed_char(dots: bool, c: char) -> bool {
    if dots {
        c == '.'
    } else {
        is_white(c)
    }
}

/// `s` without its leading trimmed characters.
pub open spec fn trim_start(s: Seq<char>, dots: bool) -> Seq<char>
    decreases s.len(),
{
    if s.len() > 0 && trimmed_char(dots, s[0]) {
        trim_start(s.drop_first(), dots)
    } else {
        s
    }
}

/// `s` without its trailing trimmed characters.
pub open spec fn trim_end(s: Seq<char>, dots: bool) -> Seq<char>
    decreases s.len(),
{
    if s.len() > 0 && trimmed_char(dots, s.last()) {
        trim_end(s.drop_last(), dots)
    } else {
        s
    }
}

/// `s` without its leading and trailing trimmed characters.
pub open spec fn trim_both(s: Seq<char>, dots: bool) -> Seq<char> {
    trim_end(trim_start(s, dots), dots)
}

/// The name given when nothing usable is left.
pub open spec fn fallback_name() -> Seq<char> {
    "Adsız_Qovluq"@
}

/// The sanitised form of a name: forbidden characters replaced, then
/// whitespace trimmed, then dots trimmed, and the fallback if that is empty.
pub open spec fn sanitized(s: Seq<char>) -> Seq<char> {
    let t = trim_both(trim_both(replace_forbidden(s), false), true);
    if t.len() == 0 {
        fallback_name()
    } else {
        t
    }
}

fn forbidden(c: char) -> (r: bool)
    ensures
        r == is_forbidden(c),
{
    c == '<' || c == '>' || c == ':' || c == '"' || c == '/' || c == '\\' || c == '|' || c == '?'
        || c == '*'
}

fn trims(dots: bool, c: char) -> (r: bool)
    ensures
        r == trimmed_char(dots, c),
{
    if dots {
        c == '.'
    } else {
        char_is_whitespace(c)
    }
}

/// `cs` without its leading and trailing dots (`dots`) or whitespace.
pub fn trim_chars(cs: &Vec<char>, dots: bool) -> (r: Vec<char>)
    ensures
        r@ == trim_both(cs@, dots),
{
    let n = cs.len();
    let mut lo: usize = 0;
    assert(cs@.skip(0) =~= cs@);
    while lo < n && trims(dots, cs[lo])
        invariant
            n == cs@.len(),
            lo <= n,
            trim_start(cs@, dots) == trim_start(cs@.skip(lo as int), dots),
        decreases n - lo,
    {
        assert(cs@.skip(lo as int).drop_first() =~= cs@.skip(lo + 1));
        lo = lo + 1;
    }
    let mut hi: usize = n;
    assert(cs@.subrange(lo as int, n as int) =~= cs@.skip(lo as int));
    while hi > lo && trims(dots, cs[hi - 1])
        invariant
            n == cs@.len(),
            lo <= hi <= n,
            trim_both(cs@, dots) == trim_end(cs@.subrange(lo as int, hi as int), dots),
        decreases hi,
    {
        assert(cs@.subrange(lo as int, hi as int).drop_last() =~= cs@.subrange(
            lo as int,
            hi - 1,
        ));
        hi = hi - 1;
    }
    let mut out: Vec<char> = Vec::new();
    let mut i: usize = lo;
    while i < hi
        invariant
            lo <= i <= hi <= n,
            n == cs@.len(),
            out@ == cs@.subrange(lo as int, i as int),
        decreases hi - i,
    {
        out.push(cs[i]);
        assert(out@ =~= cs@.subrange(lo as int, i + 1));
        i = i + 1;
    }
    out
}

/// Makes `name` usable as a file or folder name.
pub fn sanitize_filename(name: &str) -> (r: String)
    ensures
        r@ == sanitized(name@),
{
    let chars = chars_of(name);
    let mut replaced: Vec<char> = Vec::new();
    let mut i: usize = 0;
    while i < chars.len()
        invariant
            i <= chars@.len(),
            replaced@ == replace_forbidden(chars@.take(i as int)),
        decreases chars@.len() - i,
    {
        let c = chars[i];
        replaced.push(if forbidden(c) { '_' } else { c });
        assert(replace_forbidden(chars@.take(i + 1)) =~= replace_forbidden(chars@.take(i as int)).push(
            if is_forbidden(c) { '_' } else { c },
        ));
        i = i + 1;
    }
    assert(chars@.take(i as int) =~= chars@);
    let spaced = trim_chars(&replaced, false);
    let kept = trim_chars(&spaced, true);
    if kept.len() == 0 {
        "Adsız_Qovluq".to_owned()
    } else {
        string_of(kept.as_slice())
    }
}

/// What `str::to_uppercase` yields for `s`.
pub uninterp spec fn uppercase_of(s: Seq<char>) -> Seq<char>;

/// Relies on `str::to_uppercase`: the uppercase mapping of a string, which
/// depends on its characters alone.
#[verifier::external_body]
fn str_to_uppercase(s: &str) -> (r: String)
    ensures
        r@ == uppercase_of(s@),
{
    s.to_uppercase()
}

/// An uppercase ASCII letter.
pub open spec fn is_column_letter(c: char) -> bool {
    'A' <= c && c <= 'Z'
}

/// The one-based number of a column written in letters: A is 1, Z is 26,
/// AA is 27.
pub open spec fn column_number(s: Seq<char>) -> nat
    decreases s.len(),
{
    if s.len() == 0 {
        0
    } else {
        column_number(s.drop_last()) * 26 + ((s.last() as u32 - 'A' as u32 + 1) as nat)
    }
}

/// Letters that name a column whose zero-based index fits in `usize`.
pub open spec fn is_column(s: Seq<char>) -> bool {
    &&& s.len() > 0
    &&& forall|i: int| 0 <= i < s.len() ==> is_column_letter(#[trigger] s[i])
    &&& column_number(s) <= usize::MAX as nat
}

/// The message for letters that name no column.
pub open spec fn bad_column_message(s: Seq<char>) -> Seq<char> {
    "Yanlış sütun hərfi: "@ + s
}

/// The zero-based index of the column named by uppercase letters.
pub fn column_index_of(upper: &str) -> (r: Result<usize, String>)
    ensures
        match r {
            Ok(i) => is_column(upper@) && i + 1 == column_number(upper@),
            Err(e) => !is_column(upper@) && e@ == bad_column_message(upper@),
        },
{
    let cs = chars_of(upper);
    let ghost s = upper@;
    let mut result: usize = 0;
    let mut i: usize = 0;
    let mut fits = true;
    let mut letters = true;
    while i < cs.len()
        invariant
            s == cs@,
            i <= cs@.len(),
            letters <==> forall|j: int| 0 <= j < i ==> is_column_letter(#[trigger] s[j]),
            letters && fits ==> result == column_number(s.take(i as int)),
            letters && !fits ==> column_number(s.take(i as int)) > usize::MAX,
        decreases cs@.len() - i,
    {
        let ch = cs[i];
        assert(s.take(i + 1).drop_last() =~= s.take(i as int));
        assert(s.take(i + 1).last() == ch);
        if letters && !('A' <= ch && ch <= 'Z') {
            letters = false;
        } else if letters {
            let v: usize = (ch as u32 - 'A' as u32 + 1) as usize;
            if fits {
                match result.checked_mul(26) {
                    Some(m) => match m.checked_add(v) {
                        Some(n) => {
                            result = n;
                        },
                        None => {
                            fits = false;
                        },
                    },
                    None => {
                        fits = false;
                        assert(column_number(s.take(i + 1)) > usize::MAX) by (nonlinear_arith)
                            requires
                                column_number(s.take(i + 1)) >= column_number(s.take(i as int))
                                    * 26,
                                column_number(s.take(i as int)) * 26 > usize::MAX,
                        ;
                    },
                }
            } else {
                assert(column_number(s.take(i + 1)) > usize::MAX) by (nonlinear_arith)
                    requires
                        column_number(s.take(i + 1)) >= column_number(s.take(i as int)) * 26,
                        column_number(s.take(i as int)) > usize::MAX,
                ;
            }
        }
        i = i + 1;
    }
    assert(s.take(i as int) =~= s);
    if letters && fits && i > 0 {
        Ok(result - 1)
    } else {
        Err("Yanlış sütun hərfi: ".to_owned().concat(upper))
    }
}

/// The zero-based index of the spreadsheet column named by `column`,
/// read without regard to case.
pub fn column_letter_to_index(column: &str) -> (r: Result<usize, String>)
    ensures
        match r {
            Ok(i) => is_column(uppercase_of(column@)) && i + 1 == column_number(
                uppercase_of(column@),
            ),
            Err(e) => !is_column(uppercase_of(column@)) && e@ == bad_column_message(
                uppercase_of(column@),
            ),
        },
{
    let upper = str_to_uppercase(column);
    column_index_of(upper.as_str())
}

/// The extensions, in lower case, of the image files that are gathered.
pub open spec fn is_image_ext(ext: Seq<char>) -> bool {
    ||| ext == "jpg"@
    ||| ext == "jpeg"@
    ||| ext == "png"@
    ||| ext == "gif"@
    ||| ext == "bmp"@
    ||| ext == "tiff"@
    ||| ext == "tif"@
    ||| ext == "webp"@
}

/// Whether `ext` is the extension of an image file.
pub fn is_image_extension(ext: &str) -> (r: bool)
    ensures
        r == is_image_ext(ext@),
{
    same_text(ext, "jpg") || same_text(ext, "jpeg") || same_text(ext, "png") || same_text(ext, "gif")
        || same_text(ext, "bmp") || same_text(ext, "tiff") || same_text(ext, "tif") || same_text(
        ext,
        "webp",
    )
}

} // verus!
