//! What the command line and the system's configuration ask for.

use vstd::prelude::*;
use vstd::string::*;

verus! {

/// What sizes have to be multiples of.
pub const MULTIPLE_OF: usize = 1024;

/// How much is logged.
#[derive(Clone, Copy, Debug, PartialEq, Eq, Structural)]
pub enum LogLevel {
    Error,
    Warn,
    Info,
    Debug,
    Trace,
}

/// An option that the file system is mounted with.
#[derive(Clone, Copy, Debug, PartialEq, Eq, Structural)]
pub enum MountOption {
    /// The name of the file system is "fuser".
    FsName,
    /// Programs may run as the owners of their files.
    Suid,
    /// The file system is unmounted when the process ends.
    AutoUnmount,
}

/// Who may use the file system once it is mounted.
#[derive(Clone, Copy, Debug, PartialEq, Eq, Structural)]
pub enum Acl {
    All,
    Owner,
}

/// The digit is one of `0` to `9`.
pub open spec fn is_digit(c: char) -> bool {
    '0' <= c <= '9'
}

/// The number that decimal digits stand for.
pub open spec fn digits_value(digits: Seq<char>) -> int
    decreases digits.len(),
{
    if digits.len() == 0 {
        0
    } else {
        10 * digits_value(digits.drop_last()) + (digits.last() as int - '0' as int)
    }
}

/// There is a digit, and nothing but digits.
pub open spec fn all_digits(s: Seq<char>) -> bool {
    s.len() > 0 && forall|i: int| 0 <= i < s.len() ==> is_digit(#[trigger] s[i])
}

/// A text without the plus sign that it may start with.
pub open spec fn unsigned_part(s: Seq<char>) -> Seq<char> {
    if s.len() > 0 && s[0] == '+' {
        s.skip(1)
    } else {
        s
    }
}

/// The number that a text stands for: digits, and perhaps a plus sign before them.
pub open spec fn number_of(s: Seq<char>) -> Option<int> {
    let digits = unsigned_part(s);
    if all_digits(digits) && digits_value(digits) <= usize::MAX {
        Some(digits_value(digits))
    } else {
        None
    }
}

/// The characters that have the Unicode property `White_Space`.
pub open spec fn white_space(c: char) -> bool {
    ||| '\u{9}' <= c <= '\u{d}'
    ||| c == ' '
    ||| c == '\u{85}'
    ||| c == '\u{a0}'
    ||| c == '\u{1680}'
    ||| '\u{2000}' <= c <= '\u{200a}'
    ||| c == '\u{2028}'
    ||| c == '\u{2029}'
    ||| c == '\u{202f}'
    ||| c == '\u{205f}'
    ||| c == '\u{3000}'
}

/// A text without the white space that it starts with.
pub open spec fn trimmed(s: Seq<char>) -> Seq<char>
    decreases s.len(),
{
    if s.len() > 0 && white_space(s[0]) {
        trimmed(s.skip(1))
    } else {
        s
    }
}

/// Why a size was refused.
pub open spec fn size_error(s: Seq<char>) -> Seq<char> {
    if number_of(s) is None {
        "`"@ + s + "` is not a number"@
    } else {
        "`"@ + s + "` must be a multiple of 1024"@
    }
}

/// A size was given as a number that is a multiple of 1024.
pub open spec fn is_size(s: Seq<char>) -> bool {
    number_of(s) matches Some(n) && n % MULTIPLE_OF as int == 0
}

/// `str::parse::<usize>` reads a number: digits, with a plus sign before them or without,
/// and nothing else. It fails where there is no digit, and where the number is too large.
#[verifier::external_body]
fn parse_usize(s: &str) -> (n: Option<usize>)
    ensures
        match number_of(s@) {
            Some(v) => n is Some && n->0 == v,
            None => n is None,
        },
{
    s.parse::<usize>().ok()
}

/// `char::is_whitespace` tells whether a character has the Unicode property `White_Space`.
pub assume_specification[ char::is_whitespace ](c: char) -> (white: bool)
    ensures
        white == white_space(c),
;

/// The text between a backquote and `end`.
fn quoted(s: &str, end: &str) -> (message: String)
    ensures
        message@ == "`"@ + s@ + end@,
{
    let mut message = "`".to_owned();
    message.append(s);
    message.append(end);
    message
}

/// A size as it was given, or why it is none.
fn parse_size(s: &str) -> (size: Result<usize, String>)
    ensures
        match size {
            Ok(n) => is_size(s@) && number_of(s@) == Some(n as int),
            Err(e) => !is_size(s@) && e@ == size_error(s@),
        },
{
    match parse_usize(s) {
        None => Err(quoted(s, "` is not a number")),
        Some(n) => if n % MULTIPLE_OF == 0 {
            Ok(n)
        } else {
            Err(quoted(s, "` must be a multiple of 1024"))
        },
    }
}

/// The block size that an argument stands for: its lowest 32 bits.
pub fn valid_block_size(s: &str) -> (size: Result<u32, String>)
    ensures
        match size {
            Ok(n) => is_size(s@) && n == number_of(s@)->0 % 0x1_0000_0000,
            Err(e) => !is_size(s@) && e@ == size_error(s@),
        },
{
    match parse_size(s) {
        Ok(n) => {
            let wide: u64 = n as u64;
            assert(wide as u32 == wide % 0x1_0000_0000) by (bit_vector);
            Ok(#[verifier::truncate] (wide as u32))
        },
        Err(e) => Err(e),
    }
}

/// The number of inodes or blocks that an argument stands for.
pub fn valid_bitmap_size(s: &str) -> (size: Result<u64, String>)
    ensures
        match size {
            Ok(n) => is_size(s@) && number_of(s@) == Some(n as int),
            Err(e) => !is_size(s@) && e@ == size_error(s@),
        },
{
    match parse_size(s) {
        Ok(n) => Ok(n as u64),
        Err(e) => Err(e),
    }
}

/// Whether a line of the system's configuration lets users open their file systems to others.
pub fn line_allows_other(line: &str) -> (allows: bool)
    ensures
        allows == "user_allow_other"@.is_prefix_of(trimmed(line@)),
{
    let len: usize = line.unicode_len();
    let mut start: usize = 0;
    assert(line@.skip(0) =~= line@);
    while start < len && line.get_char(start).is_whitespace()
        invariant
            start <= len,
            len == line@.len(),
            trimmed(line@) == trimmed(line@.skip(start as int)),
        decreases len - start,
    {
        assert(line@.skip(start as int).skip(1) =~= line@.skip(start + 1));
        start += 1;
    }
    assert(trimmed(line@) == line@.skip(start as int));
    let option = "user_allow_other";
    let wanted: usize = option.unicode_len();
    if wanted > len - start {
        return false;
    }
    let mut i: usize = 0;
    while i < wanted
        invariant
            i <= wanted,
            wanted == option@.len(),
            option@ == "user_allow_other"@,
            start + wanted <= len,
            len == line@.len(),
            trimmed(line@) == line@.skip(start as int),
            forall|k: int| 0 <= k < i ==> option@[k] == #[trigger] line@.skip(start as int)[k],
        decreases wanted - i,
    {
        if option.get_char(i) != line.get_char(start + i) {
            assert(option@[i as int] != line@.skip(start as int)[i as int]);
            assert(line@.skip(start as int).subrange(0, wanted as int)[i as int]
                == line@.skip(start as int)[i as int]);
            return false;
        }
        i += 1;
    }
    assert(line@.skip(start as int).subrange(0, wanted as int) =~= option@);
    true
}

/// Whether any of the lines lets users open their file systems to others.
pub fn lines_allow_other(lines: &Vec<String>) -> (allow: bool)
    ensures
        allow == exists|i: int|
            0 <= i < lines@.len() && "user_allow_other"@.is_prefix_of(
                trimmed((#[trigger] lines@[i])@),
            ),
{
    let mut i: usize = 0;
    while i < lines.len()
        invariant
            i <= lines.len(),
            forall|k: int|
                0 <= k < i ==> !"user_allow_other"@.is_prefix_of(
                    trimmed((#[trigger] lines@[k])@),
                ),
        decreases lines.len() - i,
    {
        if line_allows_other(lines[i].as_str()) {
            return true;
        }
        i += 1;
    }
    false
}

/// How much is logged with an option for more given a number of times.
pub fn log_level(verbosity: u8) -> (level: LogLevel)
    ensures
        level == (if verbosity == 0 {
            LogLevel::Error
        } else if verbosity == 1 {
            LogLevel::Warn
        } else if verbosity == 2 {
            LogLevel::Info
        } else if verbosity == 3 {
            LogLevel::Debug
        } else {
            LogLevel::Trace
        }),
{
    match verbosity {
        0 => LogLevel::Error,
        1 => LogLevel::Warn,
        2 => LogLevel::Info,
        3 => LogLevel::Debug,
        _ => LogLevel::Trace,
    }
}

/// The options that the file system is mounted with.
pub fn mount_options(suid: bool, auto_unmount: bool) -> (options: Vec<MountOption>)
    ensures
        options@ == seq![MountOption::FsName] + (if suid {
            seq![MountOption::Suid]
        } else {
            Seq::empty()
        }) + (if auto_unmount {
            seq![MountOption::AutoUnmount]
        } else {
            Seq::empty()
        }),
{
    let mut options: Vec<MountOption> = Vec::new();
    options.push(MountOption::FsName);
    if suid {
        options.push(MountOption::Suid);
    }
    if auto_unmount {
        options.push(MountOption::AutoUnmount);
    }
    options
}

/// Who may use the file system: everyone where the system's configuration allows that, or
/// where it is unmounted by itself. `None` is a configuration that could not be read.
pub fn acl(allow_other: Option<bool>, auto_unmount: bool) -> (acl: Acl)
    ensures
        acl == (if allow_other == Some(true) || auto_unmount {
            Acl::All
        } else {
            Acl::Owner
        }),
{
    match allow_other {
        Some(true) => Acl::All,
        _ => if auto_unmount {
            Acl::All
        } else {
            Acl::Owner
        },
    }
}

/// What digits stand for: nothing without any, and with another one ten times as much and that
/// digit.
pub proof fn lemma_digits(digits: Seq<char>, c: char)
    ensures
        digits_value(Seq::empty()) == 0,
        digits_value(digits.push(c)) == 10 * digits_value(digits) + (c as int - 48),
        is_digit(c) <==> 48 <= c as int <= 57,
{
    assert(digits.push(c).drop_last() =~= digits);
}

/// Digits do not stand for less than nothing.
proof fn lemma_digits_value(digits: Seq<char>)
    requires
        forall|i: int| 0 <= i < digits.len() ==> is_digit(#[trigger] digits[i]),
    ensures
        digits_value(digits) >= 0,
    decreases digits.len(),
{
    if digits.len() > 0 {
        let front = digits.drop_last();
        assert forall|i: int| 0 <= i < front.len() implies is_digit(#[trigger] front[i]) by {
            assert(is_digit(digits[i]));
        }
        lemma_digits_value(front);
        assert(is_digit(digits[digits.len() - 1]));
    }
}

/// White space among the first characters of Unicode: tabs, line ends, the space and two more;
/// nothing that prints.
pub proof fn lemma_white_space(c: char)
    ensures
        c as int == 32 || 9 <= c as int <= 13 ==> white_space(c),
        33 <= c as int <= 126 ==> !white_space(c),
{
}

/// What a number is: digits and nothing else, perhaps behind a plus sign, that do not stand for
/// more than memory can count.
pub proof fn lemma_number(s: Seq<char>)
    ensures
        s.len() > 0 && (forall|i: int| 0 <= i < s.len() ==> '0' <= #[trigger] s[i] <= '9') ==> (
        number_of(s) is Some <==> digits_value(s) <= usize::MAX) && (number_of(s) matches Some(n)
            ==> n == digits_value(s)) && number_of(seq!['+'] + s) == number_of(s),
        number_of(s) is Some ==> s.len() > 0 && forall|i: int|
            0 < i < s.len() ==> '0' <= #[trigger] s[i] <= '9',
        number_of(s) is Some && s[0] != '+' ==> '0' <= s[0] <= '9',
        number_of(s) is Some && s[0] == '+' ==> s.len() > 1,
{
    let plus = seq!['+'] + s;
    assert(plus.skip(1) =~= s);
    if number_of(s) is Some {
        let digits = unsigned_part(s);
        assert(all_digits(digits));
        assert forall|i: int| 0 < i < s.len() implies '0' <= #[trigger] s[i] <= '9' by {
            if s[0] == '+' {
                assert(s[i] == digits[i - 1]);
                assert(is_digit(digits[i - 1]));
            } else {
                assert(is_digit(digits[i]));
            }
        }
        if s[0] != '+' {
            assert(is_digit(digits[0]));
        }
    }
    if s.len() > 0 && (forall|i: int| 0 <= i < s.len() ==> '0' <= #[trigger] s[i] <= '9') {
        assert('0' <= s[0] <= '9');
        assert(unsigned_part(s) == s);
        assert(all_digits(s));
        assert(unsigned_part(plus) == s);
    }
}

/// A block size is taken where it is a number and a multiple of 1024, and is that number as far
/// as 32 bits hold it; the message quotes what was given.
pub proof fn lemma_block_size(s: &str, size: Result<u32, String>)
    requires
        call_ensures(valid_block_size, (s,), size),
    ensures
        size is Ok <==> number_of(s@) is Some && number_of(s@)->0 % 1024 == 0,
        size is Ok && number_of(s@)->0 <= u32::MAX ==> size->Ok_0 == number_of(s@)->0,
        size is Ok ==> (number_of(s@)->0 - size->Ok_0) % 0x1_0000_0000 == 0,
        size is Err && number_of(s@) is None ==> size->Err_0@ == "`"@ + s@
            + "` is not a number"@,
        size is Err && number_of(s@) is Some ==> size->Err_0@ == "`"@ + s@
            + "` must be a multiple of 1024"@,
{
    if size is Ok {
        let n = number_of(s@)->0;
        lemma_digits_value(unsigned_part(s@));
        assert(n == (n / 0x1_0000_0000) * 0x1_0000_0000 + n % 0x1_0000_0000);
    }
}

/// A number of inodes or blocks is taken where it is a number and a multiple of 1024, and is
/// that number; the message quotes what was given.
pub proof fn lemma_bitmap_size(s: &str, size: Result<u64, String>)
    requires
        call_ensures(valid_bitmap_size, (s,), size),
    ensures
        size is Ok <==> number_of(s@) is Some && number_of(s@)->0 % 1024 == 0,
        size is Ok ==> size->Ok_0 == number_of(s@)->0,
        size is Err && number_of(s@) is None ==> size->Err_0@ == "`"@ + s@
            + "` is not a number"@,
        size is Err && number_of(s@) is Some ==> size->Err_0@ == "`"@ + s@
            + "` must be a multiple of 1024"@,
{
}

/// A line without the white space that it starts with: what is cut off is white space, and what
/// is left does not start with any.
pub proof fn lemma_trimmed(s: Seq<char>)
    ensures
        trimmed(s).len() <= s.len(),
        trimmed(s) == s.skip(s.len() - trimmed(s).len()),
        forall|i: int| 0 <= i < s.len() - trimmed(s).len() ==> white_space(#[trigger] s[i]),
        trimmed(s).len() > 0 ==> !white_space(trimmed(s)[0]),
    decreases s.len(),
{
    if s.len() > 0 && white_space(s[0]) {
        let rest = s.skip(1);
        lemma_trimmed(rest);
        assert(trimmed(s) =~= s.skip(s.len() - trimmed(s).len()));
        assert forall|i: int| 0 <= i < s.len() - trimmed(s).len() implies white_space(
            #[trigger] s[i],
        ) by {
            if i > 0 {
                assert(s[i] == rest[i - 1]);
            }
        }
    } else {
        assert(s.skip(0) =~= s);
    }
}

/// A line allows others exactly where it is white space, perhaps none, and then the option.
pub proof fn lemma_line(line: &str, allows: bool, k: int)
    requires
        call_ensures(line_allows_other, (line,), allows),
        0 <= k <= line@.len(),
        forall|i: int| 0 <= i < k ==> white_space(#[trigger] line@[i]),
        k < line@.len() ==> !white_space(line@[k]),
    ensures
        allows <==> "user_allow_other"@.is_prefix_of(line@.skip(k)),
{
    lemma_trimmed(line@);
    let cut = line@.len() - trimmed(line@).len();
    if cut < k {
        assert(trimmed(line@)[0] == line@[cut]);
    }
    assert(cut == k);
}

/// How much is logged: more with every time that it is asked for, up to all there is.
pub proof fn lemma_log_level(verbosity: u8, level: LogLevel)
    requires
        call_ensures(log_level, (verbosity,), level),
    ensures
        verbosity == 0 <==> level == LogLevel::Error,
        verbosity == 1 <==> level == LogLevel::Warn,
        verbosity == 2 <==> level == LogLevel::Info,
        verbosity == 3 <==> level == LogLevel::Debug,
        verbosity >= 4 <==> level == LogLevel::Trace,
{
}

/// An option is there exactly where it was asked for, and the name always.
pub proof fn lemma_mount_options(suid: bool, auto_unmount: bool, options: Vec<MountOption>)
    requires
        call_ensures(mount_options, (suid, auto_unmount), options),
    ensures
        options@.len() > 0 && options@[0] == MountOption::FsName,
        options@.contains(MountOption::Suid) <==> suid,
        options@.contains(MountOption::AutoUnmount) <==> auto_unmount,
        options@.no_duplicates(),
        options@.len() <= 3,
{
    let o = options@;
    assert(o[0] == MountOption::FsName);
    if suid {
        assert(o[1] == MountOption::Suid);
    }
    if auto_unmount {
        assert(o[o.len() - 1] == MountOption::AutoUnmount);
    }
}

/// Everyone may use the file system where the configuration allows it, or where it is unmounted
/// by itself, and only the owner otherwise.
pub proof fn lemma_acl(allow_other: Option<bool>, auto_unmount: bool, who: Acl)
    requires
        call_ensures(acl, (allow_other, auto_unmount), who),
    ensures
        auto_unmount ==> who == Acl::All,
        allow_other == Some(true) ==> who == Acl::All,
        !auto_unmount && allow_other != Some(true) ==> who == Acl::Owner,
{
}

} // verus!
