//! The records that batch operations take and report, and the rules they
//! apply to names: which files the digit mode keeps, how a file's new stem
//! is formed, where a run starts, and which folder a file is sorted into.

use std::cmp::Ordering;
use vstd::prelude::*;
use crate::digits::{is_digit, is_ascii_digit, digits_value};
use crate::order::{cmp_int, natural_cmp, natural_sort_compare};
use crate::text::{chars_of, string_of, same_text};

verus! {

/// A file or folder as a listing shows it.
pub struct FileInfo {
    pub name: String,
    pub path: String,
    pub is_directory: bool,
    pub size: u64,
    pub extension: Option<String>,
}

/// The outcome of one folder operation.
pub struct ProcessResult {
    pub success: bool,
    pub message: String,
    pub folder_name: String,
    pub new_name: String,
}

/// How files are renamed from a spreadsheet column.
pub struct ExcelRenameConfig {
    pub folder_path: String,
    pub excel_path: String,
    /// "original" or "digits".
    pub mode: String,
    pub start_row: u32,
    pub column: String,
    pub start_file_name: Option<String>,
    pub digit_count: Option<u32>,
    pub digit_from_end: bool,
    pub limit_files: bool,
    pub limit_count: Option<u32>,
    pub limit_chars: bool,
    pub char_count: Option<u32>,
    pub char_from_end: bool,
}

/// The outcome of renaming one file.
pub struct ExcelRenameResult {
    pub success: bool,
    pub old_name: String,
    pub new_name: String,
    pub message: String,
}

/// The outcome of copying a file into one folder.
pub struct FileCopyResult {
    pub success: bool,
    pub folder_path: String,
    pub message: String,
}

/// How files are sorted into folders by their first characters.
pub struct FileSorterConfig {
    pub files_folder: String,
    pub folders_folder: String,
    pub char_count: u32,
}

/// The outcome of sorting one file.
pub struct FileSorterResult {
    pub success: bool,
    pub file_name: String,
    pub target_folder: Option<String>,
    pub message: String,
}

/// Every character is an ASCII digit.
pub open spec fn all_digits(s: Seq<char>) -> bool {
    forall|i: int| 0 <= i < s.len() ==> is_digit(#[trigger] s[i])
}

/// The first `n` characters, or all of them if there are fewer.
pub open spec fn first_chars(s: Seq<char>, n: nat) -> Seq<char> {
    if s.len() >= n {
        s.take(n as int)
    } else {
        s
    }
}

/// The last `n` characters, or all of them if there are fewer.
pub open spec fn last_chars(s: Seq<char>, n: nat) -> Seq<char> {
    if s.len() >= n {
        s.skip(s.len() - n)
    } else {
        s
    }
}

/// Whether the digit mode keeps a file with this stem: the first (or, with
/// `from_end`, the last) `digit_count` characters are digits, or the whole
/// stem is when no count is given.
pub open spec fn digit_mode_match(stem: Seq<char>, digit_count: Option<u32>, from_end: bool) -> bool {
    match digit_count {
        Some(n) => if from_end {
            all_digits(last_chars(stem, n as nat))
        } else {
            all_digits(first_chars(stem, n as nat))
        },
        None => all_digits(stem),
    }
}

fn digits_between(cs: &Vec<char>, lo: usize, hi: usize) -> (r: bool)
    requires
        lo <= hi <= cs@.len(),
    ensures
        r == all_digits(cs@.subrange(lo as int, hi as int)),
{
    let mut i: usize = lo;
    while i < hi
        invariant
            lo <= i <= hi <= cs@.len(),
            forall|j: int| lo <= j < i ==> is_digit(#[trigger] cs@[j]),
        decreases hi - i,
    {
        if !is_ascii_digit(cs[i]) {
            assert(cs@.subrange(lo as int, hi as int)[i - lo] == cs@[i as int]);
            return false;
        }
        i = i + 1;
    }
    assert forall|k: int| 0 <= k < hi - lo implies is_digit(
        #[trigger] cs@.subrange(lo as int, hi as int)[k],
    ) by {
        assert(cs@.subrange(lo as int, hi as int)[k] == cs@[lo + k]);
    }
    true
}

/// Whether the digit mode of `config` keeps a file whose stem is `stem`.
pub fn digit_mode_keeps(stem: &str, config: &ExcelRenameConfig) -> (r: bool)
    ensures
        r == digit_mode_match(stem@, config.digit_count, config.digit_from_end),
{
    let cs = chars_of(stem);
    let len = cs.len();
    assert(cs@.subrange(0, len as int) =~= cs@);
    match config.digit_count {
        Some(n) => {
            let n = n as usize;
            if config.digit_from_end {
                if len >= n {
                    assert(cs@.subrange(len - n, len as int) =~= cs@.skip(len - n));
                    digits_between(&cs, len - n, len)
                } else {
                    digits_between(&cs, 0, len)
                }
            } else {
                if len >= n {
                    assert(cs@.subrange(0, n as int) =~= cs@.take(n as int));
                    digits_between(&cs, 0, n)
                } else {
                    digits_between(&cs, 0, len)
                }
            }
        },
        None => digits_between(&cs, 0, len),
    }
}

/// What `str::parse::<u32>` gives: an optional leading `+`, then at least
/// one ASCII digit, with a value that fits in `u32`.
pub open spec fn parsed_u32(s: Seq<char>) -> Option<nat> {
    let d = if s.len() > 0 && s[0] == '+' {
        s.drop_first()
    } else {
        s
    };
    if d.len() > 0 && all_digits(d) && digits_value(d) <= u32::MAX as nat {
        Some(digits_value(d))
    } else {
        None
    }
}

/// Reads `s` as a decimal `u32`, as `parsed_u32` says.
pub fn parse_u32(s: &str) -> (r: Option<u32>)
    ensures
        match r {
            Some(v) => parsed_u32(s@) == Some(v as nat),
            None => parsed_u32(s@) is None,
        },
{
    let cs = chars_of(s);
    let ghost sv = s@;
    let start: usize = if cs.len() > 0 && cs[0] == '+' {
        1
    } else {
        0
    };
    let ghost d = cs@.skip(start as int);
    assert(start == 1 ==> d =~= sv.drop_first());
    assert(start == 0 ==> d =~= sv);
    if start >= cs.len() {
        return None;
    }
    let mut value: u32 = 0;
    let mut i: usize = start;
    assert(d.take(0) =~= Seq::<char>::empty());
    while i < cs.len()
        invariant
            sv == cs@,
            sv == s@,
            d == cs@.skip(start as int),
            parsed_u32(sv) == (if d.len() > 0 && all_digits(d) && digits_value(d) <= u32::MAX as nat {
                Some(digits_value(d))
            } else {
                None
            }),
            start <= i <= cs@.len(),
            start < cs@.len(),
            all_digits(d.take(i - start)),
            value as nat == digits_value(d.take(i - start)),
        decreases cs@.len() - i,
    {
        let c = cs[i];
        assert(d[i - start] == c);
        if !is_ascii_digit(c) {
            assert(!all_digits(d));
            return None;
        }
        let ghost before = d.take(i - start);
        let ghost after = d.take(i - start + 1);
        assert(after.drop_last() =~= before);
        assert(after.last() == c);
        assert(all_digits(after)) by {
            assert forall|j: int| 0 <= j < after.len() implies is_digit(#[trigger] after[j]) by {
                if j < before.len() {
                    assert(after[j] == before[j]);
                }
            }
        }
        let digit: u32 = c as u32 - '0' as u32;
        assert(digits_value(after) == value as nat * 10 + digit as nat);
        match value.checked_mul(10) {
            Some(m) => match m.checked_add(digit) {
                Some(n) => {
                    value = n;
                },
                None => {
                    proof {
                        lemma_digits_value_grows(d, i - start + 1);
                    }
                    return None;
                },
            },
            None => {
                assert(digits_value(after) > u32::MAX as nat) by (nonlinear_arith)
                    requires
                        digits_value(after) == value as nat * 10 + digit as nat,
                        value as nat * 10 > u32::MAX as nat,
                ;
                proof {
                    lemma_digits_value_grows(d, i - start + 1);
                }
                return None;
            },
        }
        i = i + 1;
    }
    assert(d.take(i - start) =~= d);
    Some(value)
}

proof fn lemma_digits_value_grows(d: Seq<char>, k: int)
    requires
        0 <= k <= d.len(),
        all_digits(d.take(k)),
    ensures
        all_digits(d) ==> digits_value(d.take(k)) <= digits_value(d),
    decreases d.len() - k,
{
    if k < d.len() && all_digits(d) {
        let a = d.take(k);
        let b = d.take(k + 1);
        assert(b.drop_last() =~= a);
        assert(all_digits(b)) by {
            assert forall|j: int| 0 <= j < b.len() implies is_digit(#[trigger] b[j]) by {
                assert(b[j] == d[j]);
            }
        }
        lemma_digits_value_grows(d, k + 1);
    } else if k == d.len() {
        assert(d.take(k) =~= d);
    }
}

/// The digit mode's order: by value where both stems read as `u32`,
/// otherwise the natural order.
pub open spec fn digit_mode_cmp(a: Seq<char>, b: Seq<char>) -> Ordering {
    match (parsed_u32(a), parsed_u32(b)) {
        (Some(x), Some(y)) => cmp_int(x as int, y as int),
        _ => natural_cmp(a, b),
    }
}

/// Compares two stems in the digit mode.
pub fn compare_digit_stems(a: &str, b: &str) -> (r: Ordering)
    ensures
        r == digit_mode_cmp(a@, b@),
{
    match (parse_u32(a), parse_u32(b)) {
        (Some(x), Some(y)) => {
            if x < y {
                Ordering::Less
            } else if x > y {
                Ordering::Greater
            } else {
                Ordering::Equal
            }
        },
        _ => natural_sort_compare(a, b),
    }
}

/// `s` with each space replaced by an underscore.
pub open spec fn underscored(s: Seq<char>) -> Seq<char> {
    s.map_values(|c: char| if c == ' ' { '_' } else { c })
}

/// A file's new stem: the spreadsheet name with spaces as underscores; when
/// characters are limited to `char_count` and the stem is longer, that name
/// replaces only the stem's first (or, with `from_end`, last) `char_count`
/// characters.
pub open spec fn new_stem(
    stem: Seq<char>,
    excel_name: Seq<char>,
    limit_chars: bool,
    char_count: Option<u32>,
    from_end: bool,
) -> Seq<char> {
    let clean = underscored(excel_name);
    if limit_chars && char_count is Some && stem.len() > char_count->0 as nat {
        let n = char_count->0 as int;
        if from_end {
            stem.take(stem.len() - n) + clean
        } else {
            clean + stem.skip(n)
        }
    } else {
        clean
    }
}

/// The stem that a file with stem `file_stem` takes from `excel_name`.
pub fn renamed_stem(file_stem: &str, excel_name: &str, config: &ExcelRenameConfig) -> (r: String)
    ensures
        r@ == new_stem(
            file_stem@,
            excel_name@,
            config.limit_chars,
            config.char_count,
            config.char_from_end,
        ),
{
    let stem = chars_of(file_stem);
    let excel = chars_of(excel_name);
    let mut clean: Vec<char> = Vec::new();
    let mut i: usize = 0;
    while i < excel.len()
        invariant
            i <= excel@.len(),
            clean@ == underscored(excel@.take(i as int)),
        decreases excel@.len() - i,
    {
        let c = excel[i];
        clean.push(if c == ' ' { '_' } else { c });
        assert(underscored(excel@.take(i + 1)) =~= underscored(excel@.take(i as int)).push(
            if c == ' ' { '_' } else { c },
        ));
        i = i + 1;
    }
    assert(excel@.take(i as int) =~= excel@);
    let mut out: Vec<char> = Vec::new();
    let (lo, hi, before) = match config.char_count {
        Some(n) if config.limit_chars && stem.len() > n as usize => {
            let n = n as usize;
            if config.char_from_end {
                (0, stem.len() - n, true)
            } else {
                (n, stem.len(), false)
            }
        },
        _ => (0, 0, false),
    };
    if !before {
        let mut j: usize = 0;
        while j < clean.len()
            invariant
                j <= clean@.len(),
                out@ == clean@.take(j as int),
            decreases clean@.len() - j,
        {
            out.push(clean[j]);
            assert(out@ =~= clean@.take(j + 1));
            j = j + 1;
        }
        assert(clean@.take(j as int) =~= clean@);
    }
    let ghost head = out@;
    let mut j: usize = lo;
    while j < hi
        invariant
            lo <= j <= hi <= stem@.len(),
            out@ == head + stem@.subrange(lo as int, j as int),
        decreases hi - j,
    {
        out.push(stem[j]);
        assert(out@ =~= head + stem@.subrange(lo as int, j + 1));
        j = j + 1;
    }
    if before {
        let ghost mid = out@;
        let mut j: usize = 0;
        while j < clean.len()
            invariant
                j <= clean@.len(),
                out@ == mid + clean@.take(j as int),
            decreases clean@.len() - j,
        {
            out.push(clean[j]);
            assert(out@ =~= mid + clean@.take(j + 1));
            j = j + 1;
        }
        assert(clean@.take(j as int) =~= clean@);
    }
    proof {
        let ghost want = new_stem(
            file_stem@,
            excel_name@,
            config.limit_chars,
            config.char_count,
            config.char_from_end,
        );
        if lo == 0 && hi == 0 && !before {
            assert(out@ =~= want);
        } else if before {
            assert(stem@.subrange(0, hi as int) =~= stem@.take(hi as int));
            assert(out@ =~= want);
        } else {
            assert(stem@.subrange(lo as int, hi as int) =~= stem@.skip(lo as int));
            assert(out@ =~= want);
        }
    }
    string_of(out.as_slice())
}

/// Where a run over `stems` starts: at the first stem equal to the given
/// start name, or at the beginning when no non-empty start name is given or
/// none is equal to it.
pub fn start_index(stems: &Vec<String>, start_file_name: &Option<String>) -> (r: usize)
    ensures
        match start_file_name {
            Some(name) => if name@.len() > 0 && exists|i: int|
                0 <= i < stems@.len() && #[trigger] stems@[i]@ == name@ {
                &&& r < stems@.len()
                &&& stems@[r as int]@ == name@
                &&& forall|j: int| 0 <= j < r ==> #[trigger] stems@[j]@ != name@
            } else {
                r == 0
            },
            None => r == 0,
        },
{
    match start_file_name {
        Some(name) => {
            if name.as_str().is_empty() {
                return 0;
            }
            let mut i: usize = 0;
            while i < stems.len()
                invariant
                    i <= stems@.len(),
                    name@.len() > 0,
                    *start_file_name == Some(*name),
                    forall|j: int| 0 <= j < i ==> #[trigger] stems@[j]@ != name@,
                decreases stems@.len() - i,
            {
                if same_text(stems[i].as_str(), name.as_str()) {
                    assert(stems@[i as int]@ == name@);
                    return i;
                }
                i = i + 1;
            }
            0
        },
        None => 0,
    }
}

/// What `str::to_lowercase` yields for `s`.
pub uninterp spec fn lowercase_str_of(s: Seq<char>) -> Seq<char>;

/// Relies on `str::to_lowercase`: the lowercase mapping of a string, which
/// depends on its characters alone.
#[verifier::external_body]
fn str_to_lowercase(s: &str) -> (r: String)
    ensures
        r@ == lowercase_str_of(s@),
{
    s.to_lowercase()
}

/// The key a name is matched by: its first `n` characters, lowercased.
pub open spec fn prefix_key(s: Seq<char>, n: nat) -> Seq<char> {
    lowercase_str_of(first_chars(s, n))
}

fn prefix_key_of(s: &str, n: usize) -> (r: String)
    ensures
        r@ == prefix_key(s@, n as nat),
{
    let cs = chars_of(s);
    let mut head: Vec<char> = Vec::new();
    let mut i: usize = 0;
    while i < cs.len() && i < n
        invariant
            cs@ == s@,
            i <= cs@.len(),
            i <= n,
            head@ == cs@.take(i as int),
        decreases cs@.len() - i,
    {
        head.push(cs[i]);
        assert(head@ =~= cs@.take(i + 1));
        i = i + 1;
    }
    assert(cs@.len() < n ==> cs@.take(i as int) =~= cs@);
    let first = string_of(head.as_slice());
    str_to_lowercase(first.as_str())
}

/// The position of the first of `keys` equal to `key`.
pub fn first_matching_key(key: &str, keys: &Vec<String>) -> (r: Option<usize>)
    ensures
        match r {
            Some(k) => k < keys@.len() && keys@[k as int]@ == key@ && forall|j: int|
                0 <= j < k ==> #[trigger] keys@[j]@ != key@,
            None => forall|j: int| 0 <= j < keys@.len() ==> #[trigger] keys@[j]@ != key@,
        },
{
    let mut i: usize = 0;
    while i < keys.len()
        invariant
            i <= keys@.len(),
            forall|j: int| 0 <= j < i ==> #[trigger] keys@[j]@ != key@,
        decreases keys@.len() - i,
    {
        if same_text(keys[i].as_str(), key) {
            return Some(i);
        }
        i = i + 1;
    }
    None
}

/// The first of `folder_names` whose key matches the key of `file_name`,
/// both taken over `char_count` characters.
pub fn find_folder_by_prefix(file_name: &str, folder_names: &Vec<String>, char_count: usize) -> (r:
    Option<usize>)
    ensures
        match r {
            Some(k) => {
                &&& k < folder_names@.len()
                &&& prefix_key(folder_names@[k as int]@, char_count as nat) == prefix_key(
                    file_name@,
                    char_count as nat,
                )
                &&& forall|j: int|
                    0 <= j < k ==> prefix_key(#[trigger] folder_names@[j]@, char_count as nat)
                        != prefix_key(file_name@, char_count as nat)
            },
            None => forall|j: int|
                0 <= j < folder_names@.len() ==> prefix_key(
                    #[trigger] folder_names@[j]@,
                    char_count as nat,
                ) != prefix_key(file_name@, char_count as nat),
        },
{
    let key = prefix_key_of(file_name, char_count);
    let mut keys: Vec<String> = Vec::new();
    let mut i: usize = 0;
    while i < folder_names.len()
        invariant
            i <= folder_names@.len(),
            keys@.len() == i,
            forall|j: int|
                0 <= j < i ==> (#[trigger] keys@[j])@ == prefix_key(
                    folder_names@[j]@,
                    char_count as nat,
                ),
        decreases folder_names@.len() - i,
    {
        keys.push(prefix_key_of(folder_names[i].as_str(), char_count));
        i = i + 1;
    }
    let r = first_matching_key(key.as_str(), &keys);
    proof {
        match r {
            Some(k) => {
                assert(keys@[k as int]@ == prefix_key(folder_names@[k as int]@, char_count as nat));
                assert forall|j: int| 0 <= j < k implies prefix_key(
                    #[trigger] folder_names@[j]@,
                    char_count as nat,
                ) != prefix_key(file_name@, char_count as nat) by {
                    assert(keys@[j]@ != key@);
                }
            },
            None => {
                assert forall|j: int| 0 <= j < folder_names@.len() implies prefix_key(
                    #[trigger] folder_names@[j]@,
                    char_count as nat,
                ) != prefix_key(file_name@, char_count as nat) by {
                    assert(keys@[j]@ != key@);
                }
            },
        }
    }
    r
}

/// The message for a character count outside the allowed range.
pub open spec fn char_count_message() -> Seq<char> {
    "Simvol sayı 1-50 arasında olmalıdır"@
}

/// The number of leading characters that files are sorted by must lie
/// between 1 and 50.
pub fn check_char_count(char_count: u32) -> (r: Result<(), String>)
    ensures
        r is Ok <==> 1 <= char_count <= 50,
        r is Err ==> r->Err_0@ == char_count_message(),
{
    if char_count < 1 || char_count > 50 {
        Err("Simvol sayı 1-50 arasında olmalıdır".to_owned())
    } else {
        Ok(())
    }
}

} // verus!
