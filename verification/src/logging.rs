//! The rules of log setup: the filter directive taken from a directive file
//! or the configured level, and the limits by which log files are rotated.
use vstd::prelude::*;
use vstd::string::*;

use crate::text::{decimal, u64_text};
use crate::utils::{split_on, split_text};

verus! {

/// Errors of setting up logging.
#[derive(Debug)]
pub enum LogInitError {
    Bridge(String),
    InvalidFilter(String),
    ConfigFile(String),
    Init(String),
    Io(String),
}

/// The message of a log setup error.
pub open spec fn log_error_text(e: LogInitError) -> Seq<char> {
    match e {
        LogInitError::Bridge(m) => "日志桥接初始化失败: "@ + m@,
        LogInitError::InvalidFilter(m) => "日志过滤规则解析失败: "@ + m@,
        LogInitError::ConfigFile(m) => "日志配置文件读取失败: "@ + m@,
        LogInitError::Init(m) => "日志系统初始化失败: "@ + m@,
        LogInitError::Io(m) => "日志 IO 操作失败: "@ + m@,
    }
}

impl LogInitError {
    /// The error's message.
    pub fn message(&self) -> (r: String)
        ensures
            r@ == log_error_text(*self),
    {
        match self {
            LogInitError::Bridge(m) => String::from_str("日志桥接初始化失败: ").concat(m.as_str()),
            LogInitError::InvalidFilter(m) => String::from_str("日志过滤规则解析失败: ").concat(
                m.as_str(),
            ),
            LogInitError::ConfigFile(m) => String::from_str("日志配置文件读取失败: ").concat(
                m.as_str(),
            ),
            LogInitError::Init(m) => String::from_str("日志系统初始化失败: ").concat(m.as_str()),
            LogInitError::Io(m) => String::from_str("日志 IO 操作失败: ").concat(m.as_str()),
        }
    }
}

/// The characters that `str::trim` removes: those with the Unicode
/// `White_Space` property.
pub open spec fn is_space(c: char) -> bool {
    ||| '\u{9}' <= c <= '\u{d}'
    ||| c == ' '
    ||| c == '\u{85}'
    ||| c == '\u{a0}'
    ||| c == '\u{1680}'
    ||| '\u{2000}' <= c <= '\u{200a}'
    ||| c == '\u{2028}'
    ||| c == '\u{2029}'
    ||| c == '\u{202f}'
    ||| c == '\u{205f}'
    ||| c == '\u{3000}'
}

fn space_char(c: char) -> (r: bool)
    ensures
        r == is_space(c),
{
    ('\u{9}' <= c && c <= '\u{d}') || c == ' ' || c == '\u{85}' || c == '\u{a0}' || c == '\u{1680}'
        || ('\u{2000}' <= c && c <= '\u{200a}') || c == '\u{2028}' || c == '\u{2029}' || c
        == '\u{202f}' || c == '\u{205f}' || c == '\u{3000}'
}

/// A text without its leading white space.
pub open spec fn trim_start(s: Seq<char>) -> Seq<char>
    decreases s.len(),
{
    if s.len() > 0 && is_space(s[0]) {
        trim_start(s.drop_first())
    } else {
        s
    }
}

/// A text without its trailing white space.
pub open spec fn trim_end(s: Seq<char>) -> Seq<char>
    decreases s.len(),
{
    if s.len() > 0 && is_space(s.last()) {
        trim_end(s.drop_last())
    } else {
        s
    }
}

/// A text without leading and trailing white space, as `str::trim` gives it.
pub open spec fn trimmed(s: Seq<char>) -> Seq<char> {
    trim_end(trim_start(s))
}

/// A text without leading and trailing white space.
pub fn trim_text(s: &str) -> (r: &str)
    ensures
        r@ == trimmed(s@),
{
    let n = s.unicode_len();
    let mut i: usize = 0;
    proof {
        assert(s@.subrange(0, n as int) =~= s@);
    }
    while i < n
        invariant
            i <= n,
            n == s@.len(),
            trim_start(s@) == trim_start(s@.subrange(i as int, n as int)),
        ensures
            i <= n,
            trim_start(s@) == trim_start(s@.subrange(i as int, n as int)),
            i < n ==> !is_space(s@[i as int]),
        decreases n - i,
    {
        if !space_char(s.get_char(i)) {
            break;
        }
        proof {
            assert(s@.subrange(i as int, n as int).drop_first() =~= s@.subrange(i + 1, n as int));
        }
        i = i + 1;
    }
    let ghost t = s@.subrange(i as int, n as int);
    assert(trim_start(s@) == t);
    let mut j: usize = n;
    proof {
        assert(t =~= s@.subrange(i as int, j as int));
    }
    while j > i
        invariant
            i <= j <= n,
            n == s@.len(),
            t == s@.subrange(i as int, n as int),
            trim_end(t) == trim_end(s@.subrange(i as int, j as int)),
        ensures
            i <= j <= n,
            trim_end(t) == trim_end(s@.subrange(i as int, j as int)),
            j > i ==> !is_space(s@[j - 1]),
        decreases j - i,
    {
        if !space_char(s.get_char(j - 1)) {
            break;
        }
        proof {
            assert(s@.subrange(i as int, j as int).drop_last() =~= s@.subrange(i as int, j - 1));
        }
        j = j - 1;
    }
    assert(trim_end(s@.subrange(i as int, j as int)) == s@.subrange(i as int, j as int));
    s.substring_char(i, j)
}

/// Whether a trimmed line is a directive: not empty and no `#` comment.
pub open spec fn is_directive(line: Seq<char>) -> bool {
    line.len() > 0 && line[0] != '#'
}

/// The directives among some lines: each trimmed, blank lines and comments
/// left out, in order.
pub open spec fn directives(lines: Seq<Seq<char>>) -> Seq<Seq<char>>
    decreases lines.len(),
{
    if lines.len() == 0 {
        Seq::empty()
    } else {
        let rest = directives(lines.drop_last());
        let t = trimmed(lines.last());
        if is_directive(t) {
            rest.push(t)
        } else {
            rest
        }
    }
}

/// Texts joined with `,` between them.
pub open spec fn joined(parts: Seq<Seq<char>>) -> Seq<char>
    decreases parts.len(),
{
    if parts.len() == 0 {
        Seq::empty()
    } else if parts.len() == 1 {
        parts[0]
    } else {
        joined(parts.drop_last()) + ","@ + parts.last()
    }
}

/// The filter directive: the directives of the directive file joined with
/// `,`, or, without a file or without a directive in it, the trimmed level.
pub open spec fn directive_of(file_text: Option<Seq<char>>, level: Seq<char>) -> Seq<char> {
    match file_text {
        Some(raw) => {
            let d = directives(split_on(raw, '\n'));
            if d.len() > 0 {
                joined(d)
            } else {
                trimmed(level)
            }
        },
        None => trimmed(level),
    }
}

/// The filter directive from the text of the directive file, where one
/// exists, and the configured level.
pub fn resolve_directive(file_text: Option<&str>, level: &str) -> (r: String)
    ensures
        r@ == directive_of(
            match file_text {
                Some(t) => Some(t@),
                None => None,
            },
            level@,
        ),
{
    if let Some(raw) = file_text {
        let lines = split_text(raw, '\n');
        let ghost ls = lines@.map_values(|p: String| p@);
        let mut out = String::new();
        let mut count: usize = 0;
        let mut i: usize = 0;
        proof {
            assert(ls.subrange(0, 0) =~= Seq::<Seq<char>>::empty());
        }
        while i < lines.len()
            invariant
                i <= lines@.len(),
                ls == lines@.map_values(|p: String| p@),
                ls == split_on(raw@, '\n'),
                count <= i,
                count == directives(ls.subrange(0, i as int)).len(),
                out@ == joined(directives(ls.subrange(0, i as int))),
            decreases lines@.len() - i,
        {
            let t = trim_text(lines[i].as_str());
            let ghost before = directives(ls.subrange(0, i as int));
            proof {
                assert(ls.subrange(0, i + 1).drop_last() =~= ls.subrange(0, i as int));
                assert(ls.subrange(0, i + 1).last() == lines@[i as int]@);
            }
            if t.unicode_len() > 0 && t.get_char(0) != '#' {
                if count > 0 {
                    out.append(",");
                }
                out.append(t);
                proof {
                    let now = before.push(t@);
                    assert(now.drop_last() =~= before);
                    if count == 0 {
                        assert(before.len() == 0);
                        assert(out@ =~= joined(now));
                    } else {
                        assert(out@ =~= joined(before) + ","@ + t@);
                    }
                }
                count = count + 1;
            }
            i = i + 1;
        }
        proof {
            assert(ls.subrange(0, lines@.len() as int) =~= ls);
        }
        if count > 0 {
            return out;
        }
    }
    String::from_str(trim_text(level))
}

/// The size at which a log file is rotated, in bytes: none (the largest
/// `u64`) for `0`, else the megabytes in bytes, saturating.
pub open spec fn size_limit(max_size_mb: u64) -> u64 {
    if max_size_mb == 0 || max_size_mb * 1048576 > u64::MAX {
        u64::MAX
    } else {
        (max_size_mb * 1048576) as u64
    }
}

pub fn log_size_limit(max_size_mb: u64) -> (r: u64)
    ensures
        r == size_limit(max_size_mb),
{
    if max_size_mb == 0 {
        u64::MAX
    } else {
        match max_size_mb.checked_mul(1024 * 1024) {
            Some(v) => v,
            None => u64::MAX,
        }
    }
}

/// The age at which a log file is rotated, in seconds: none for `0`, else
/// the hours in seconds, saturating.
pub open spec fn age_limit(retention_hours: u64) -> Option<u64> {
    if retention_hours == 0 {
        None
    } else if retention_hours * 3600 > u64::MAX {
        Some(u64::MAX)
    } else {
        Some((retention_hours * 3600) as u64)
    }
}

pub fn log_age_limit(retention_hours: u64) -> (r: Option<u64>)
    ensures
        r == age_limit(retention_hours),
{
    if retention_hours == 0 {
        None
    } else {
        match retention_hours.checked_mul(3600) {
            Some(v) => Some(v),
            None => Some(u64::MAX),
        }
    }
}

/// Whether a log file is rotated before `incoming` bytes are written: when
/// a size limit is set and the file would pass it, or when an age limit is
/// set and the file (its age in whole seconds) has reached it.
pub open spec fn rotation_due(
    max_size: u64,
    size: u64,
    incoming: u64,
    max_age_secs: Option<u64>,
    age_secs: u64,
) -> bool {
    let grown = if size + incoming > u64::MAX {
        u64::MAX as int
    } else {
        size + incoming
    };
    ||| max_size != u64::MAX && grown > max_size
    ||| (max_age_secs matches Some(limit) && age_secs >= limit)
}

pub fn should_rotate(
    max_size: u64,
    size: u64,
    incoming: u64,
    max_age_secs: Option<u64>,
    age_secs: u64,
) -> (r: bool)
    ensures
        r == rotation_due(max_size, size, incoming, max_age_secs, age_secs),
{
    let size_exceeded = max_size != u64::MAX && size.saturating_add(incoming) > max_size;
    let age_exceeded = match max_age_secs {
        Some(limit) => age_secs >= limit,
        None => false,
    };
    size_exceeded || age_exceeded
}

/// The name a rotated log file takes: its own name, a dot and the time of
/// rotation in seconds since the epoch.
pub fn rotated_name(base_name: &str, timestamp: u64) -> (r: String)
    ensures
        r@ == base_name@ + "."@ + decimal(timestamp as nat),
{
    String::from_str(base_name).concat(".").concat(u64_text(timestamp).as_str())
}

/// Whether a file of the log directory is a rotated copy of a log: its
/// name starts with the log's name.
pub fn is_rotated_log(file_name: &str, base_name: &str) -> (r: bool)
    ensures
        r == (base_name@.len() <= file_name@.len() && file_name@.subrange(
            0,
            base_name@.len() as int,
        ) == base_name@),
{
    let n = base_name.unicode_len();
    let m = file_name.unicode_len();
    if n > m {
        return false;
    }
    let mut i: usize = 0;
    while i < n
        invariant
            i <= n <= m,
            n == base_name@.len(),
            m == file_name@.len(),
            file_name@.subrange(0, i as int) == base_name@.subrange(0, i as int),
        decreases n - i,
    {
        if file_name.get_char(i) != base_name.get_char(i) {
            proof {
                assert(file_name@.subrange(0, n as int)[i as int] != base_name@[i as int]);
            }
            return false;
        }
        proof {
            assert(file_name@.subrange(0, i + 1) =~= base_name@.subrange(0, i + 1));
        }
        i = i + 1;
    }
    proof {
        assert(base_name@.subrange(0, n as int) =~= base_name@);
    }
    true
}

} // verus!
