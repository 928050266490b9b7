//! The text of the listing: padding, size formatting, and the order of sorted results.
use vstd::prelude::*;
use vstd::string::*;
use vstd::utf8::encode_utf8;
use crate::fffs::PathResult;
use itertools::Itertools;
use crate::text::{decimal_digits, decimal_text, i64_to_text, push_char, replace_char, replace_char_str};

verus! {

/// The number of bytes of the UTF-8 encoding of `s`, as `str::len` gives it.
pub open spec fn byte_len(s: Seq<char>) -> usize {
    encode_utf8(s).len() as usize
}

/// `n` copies of `c`.
pub open spec fn repeat_char(c: char, n: nat) -> Seq<char> {
    Seq::new(n, |_i: int| c)
}

/// `s` followed by as many `pad_char` as it takes to reach `target_length` bytes (each pad
/// character counted as one); `s` itself when it is that long already.
pub fn pad_end(s: &str, target_length: usize, pad_char: char) -> (res: String)
    ensures
        byte_len(s@) >= target_length ==> res@ == s@,
        byte_len(s@) < target_length ==> res@ == s@ + repeat_char(
            pad_char,
            (target_length - byte_len(s@)) as nat,
        ),
{
    let n = s.len();
    let mut res = String::from_str(s);
    if n >= target_length {
        return res;
    }
    let k = target_length - n;
    let mut i: usize = 0;
    while i < k
        invariant
            i <= k,
            res@ == s@ + repeat_char(pad_char, i as nat),
        decreases k - i,
    {
        push_char(&mut res, pad_char);
        i = i + 1;
        assert(res@ =~= s@ + repeat_char(pad_char, i as nat));
    }
    res
}

/// As many `pad_char` as it takes to reach `target_length` bytes, followed by `s`; `s`
/// itself when it is that long already.
pub fn pad_start(s: &str, target_length: usize, pad_char: char) -> (res: String)
    ensures
        byte_len(s@) >= target_length ==> res@ == s@,
        byte_len(s@) < target_length ==> res@ == repeat_char(
            pad_char,
            (target_length - byte_len(s@)) as nat,
        ) + s@,
{
    let n = s.len();
    if n >= target_length {
        return String::from_str(s);
    }
    let k = target_length - n;
    let mut res = String::new();
    let mut i: usize = 0;
    while i < k
        invariant
            i <= k,
            res@ == repeat_char(pad_char, i as nat),
        decreases k - i,
    {
        push_char(&mut res, pad_char);
        i = i + 1;
        assert(res@ =~= repeat_char(pad_char, i as nat));
    }
    res.append(s);
    res
}

// ---------------------------------------------------------------- sizes

/// What `bytesize::ByteSize::b(bytes).to_string()` writes for `bytes`.
pub uninterp spec fn spec_bytesize_text(bytes: u64) -> Seq<char>;

/// `bytesize::ByteSize`'s `Display`: `bytes` as a human-readable size. Claimed: the text
/// depends on `bytes` alone, and below 1000 it is the decimal number followed by " B"
/// (bytesize's `to_string` writes `format!("{} B", bytes)` there). Above, the crate
/// rounds a floating-point quotient, which is left unsaid.
#[verifier::external_body]
fn bytesize_text(bytes: u64) -> (res: String)
    ensures
        res@ == spec_bytesize_text(bytes),
        bytes < 1000 ==> res@ == decimal_digits(bytes as nat) + " B"@,
{
    bytesize::ByteSize::b(bytes).to_string()
}

/// Whether `c` is an ASCII digit.
pub open spec fn is_digit(c: char) -> bool {
    '0' <= c <= '9'
}

/// The first position from `i` on where a `.` followed by a digit starts.
pub open spec fn first_fraction(s: Seq<char>, i: int) -> Option<int>
    decreases s.len() - i,
{
    if i < 0 || i + 1 >= s.len() {
        None
    } else if s[i] == '.' && is_digit(s[i + 1]) {
        Some(i)
    } else {
        first_fraction(s, i + 1)
    }
}

/// The end of the run of digits that starts at `k`.
pub open spec fn digit_run_end(s: Seq<char>, k: int) -> int
    decreases s.len() - k,
{
    if 0 <= k < s.len() && is_digit(s[k]) {
        digit_run_end(s, k + 1)
    } else {
        k
    }
}

/// `s` without its first `.` followed by its maximal run of digits: what replacing the
/// leftmost match of the regular expression `\.[0-9]+` by nothing gives.
pub open spec fn without_first_fraction(s: Seq<char>) -> Seq<char> {
    match first_fraction(s, 0) {
        None => s,
        Some(i) => s.subrange(0, i) + s.subrange(digit_run_end(s, i + 1), s.len() as int),
    }
}

/// The regular expression of a decimal fraction.
pub open spec fn fraction_pattern() -> Seq<char> {
    seq!['\\', '.', '[', '0', '-', '9', ']', '+']
}

/// What `Regex::new(pattern)` and then `replace(text, rep)` give.
pub uninterp spec fn spec_regex_replace(pattern: Seq<char>, text: Seq<char>, rep: Seq<char>) -> Option<
    Seq<char>,
>;

/// `regex::Regex::new(pattern)` followed by `Regex::replace(text, rep)`: `None` when the
/// pattern does not compile, else `text` with its leftmost-first match replaced by `rep`.
/// Claimed in general only that the result depends on the arguments alone; for the
/// pattern `\.[0-9]+` and an empty replacement, the result stated by
/// [`without_first_fraction`] (the leftmost `.` followed by a digit, with all the digits
/// that follow it, since `+` is greedy and `[0-9]` is an ASCII range).
/// The two calls stand in one item because a compiled `Regex` is opaque here: what
/// `replace` does can only be stated over the text of the pattern it was compiled from.
#[verifier::external_body]
fn regex_replace(pattern: &str, text: &str, rep: &str) -> (res: Option<String>)
    ensures
        match res {
            Some(r) => spec_regex_replace(pattern@, text@, rep@) == Some(r@),
            None => spec_regex_replace(pattern@, text@, rep@) is None,
        },
        pattern@ == fraction_pattern() && rep@ == Seq::<char>::empty() ==> res is Some
            && res->0@ == without_first_fraction(text@),
{
    match regex::Regex::new(pattern) {
        Ok(re) => Some(re.replace(text, rep).into_owned()),
        Err(_) => None,
    }
}

/// The text of a size, and whether it still gets a unit when it is a bare number.
#[derive(Debug, Clone, PartialEq, Eq)]
pub enum SizeText {
    /// Printed as is.
    Exact(String),
    /// A compact size; a bare number of at most three bytes is then followed by `B`.
    Compact(String),
}

/// The compact text of `t`: without its `B`s and spaces, and, when five bytes or longer,
/// without its first decimal fraction.
pub open spec fn compact_size(t: Seq<char>) -> Seq<char> {
    let stripped = replace_char(replace_char(t, 'B', Seq::empty()), ' ', Seq::empty());
    if byte_len(stripped) >= 5 {
        without_first_fraction(stripped)
    } else {
        stripped
    }
}

/// The text of the size `size`: its decimal number when `raw_bytes`, `KO` when negative,
/// else the compact form of its human-readable size (e.g. `1.5K`, `512`).
pub fn format_size_text(size: i64, raw_bytes: bool) -> (res: SizeText)
    ensures
        raw_bytes ==> res is Exact && res->Exact_0@ == decimal_text(size as int),
        !raw_bytes && size < 0 ==> res is Exact && res->Exact_0@ == "KO"@,
        !raw_bytes && size >= 0 ==> res is Compact && res->Compact_0@ == compact_size(
            spec_bytesize_text(size as u64),
        ),
{
    if raw_bytes {
        return SizeText::Exact(i64_to_text(size));
    }
    if size < 0 {
        return SizeText::Exact(String::from_str("KO"));
    }
    let size_formatted = bytesize_text(size as u64);
    let no_unit = replace_char_str(size_formatted.as_str(), 'B', "");
    let mut rtn = replace_char_str(no_unit.as_str(), ' ', "");
    proof {
        reveal_strlit("");
        assert(""@ =~= Seq::<char>::empty());
    }
    if rtn.as_str().len() >= 5 {
        let pattern = "\\.[0-9]+";
        proof {
            reveal_strlit("\\.[0-9]+");
            assert(pattern@ =~= fraction_pattern());
        }
        match regex_replace(pattern, rtn.as_str(), "") {
            Some(r) => {
                rtn = r;
            },
            None => {},
        }
    }
    SizeText::Compact(rtn)
}

// ---------------------------------------------------------------- paths

/// How the path of a result is shown.
#[derive(Debug, Clone, Copy, PartialEq, Eq, Structural)]
pub enum PathDisplay {
    /// The first path argument joined with the result's file name (when listing a folder).
    FirstArgJoined,
    /// The path argument as it was given.
    ArgAsGiven,
    /// The path argument joined with the result's file name.
    ArgJoined,
    /// The absolute path of the result.
    Absolute,
}

/// How to show a result's path: when listing, under the first argument; a relative
/// argument as given when it already ends with the result's file name, else joined with
/// it; an absolute argument as the absolute path.
pub fn path_display(listing: bool, arg_is_relative: bool, arg_ends_with_name: bool) -> (res:
    PathDisplay)
    ensures
        listing ==> res == PathDisplay::FirstArgJoined,
        !listing && arg_is_relative && arg_ends_with_name ==> res == PathDisplay::ArgAsGiven,
        !listing && arg_is_relative && !arg_ends_with_name ==> res == PathDisplay::ArgJoined,
        !listing && !arg_is_relative ==> res == PathDisplay::Absolute,
{
    if listing {
        PathDisplay::FirstArgJoined
    } else if arg_is_relative {
        if arg_ends_with_name {
            PathDisplay::ArgAsGiven
        } else {
            PathDisplay::ArgJoined
        }
    } else {
        PathDisplay::Absolute
    }
}

// ---------------------------------------------------------------- sorting

/// `keys` sorted stably in ascending order, given as the positions of the keys.
/// `Itertools::sorted_by_key` on the enumerated keys, keeping the positions: itertools
/// documents an ascending, stable sort (it calls `slice::sort_by_key`). Claimed: the
/// result lists each position once, keys ascend along it, and equal keys keep their order.
#[verifier::external_body]
fn sort_indices_by_key(keys: &Vec<i64>) -> (res: Vec<usize>)
    ensures
        res@.len() == keys@.len(),
        forall|i: int| 0 <= i < res@.len() ==> #[trigger] res@[i] < keys@.len(),
        forall|i: int, j: int|
            0 <= i < j < res@.len() ==> keys@[#[trigger] res@[i] as int] < keys@[#[trigger] res@[j] as int]
                || (keys@[res@[i] as int] == keys@[res@[j] as int] && res@[i] < res@[j]),
{
    keys.iter().enumerate().sorted_by_key(|&(_, k)| *k).map(|(i, _)| i).collect()
}

/// The order in which sorted results are listed: the positions of `results`, by ascending
/// size, results of equal size in their own order.
pub fn sorted_by_size(results: &Vec<PathResult>) -> (res: Vec<usize>)
    ensures
        res@.len() == results@.len(),
        forall|i: int| 0 <= i < res@.len() ==> #[trigger] res@[i] < results@.len(),
        forall|i: int, j: int|
            0 <= i < j < res@.len() ==> results@[#[trigger] res@[i] as int].size
                < results@[#[trigger] res@[j] as int].size || (results@[res@[i] as int].size
                == results@[res@[j] as int].size && res@[i] < res@[j]),
{
    let mut sizes: Vec<i64> = Vec::new();
    let mut i: usize = 0;
    while i < results.len()
        invariant
            i <= results@.len(),
            sizes@.len() == i,
            forall|j: int| 0 <= j < i ==> sizes@[j] == #[trigger] results@[j].size,
        decreases results@.len() - i,
    {
        sizes.push(results[i].size);
        i = i + 1;
    }
    sort_indices_by_key(&sizes)
}

} // verus!
