//! Log levels and the text rules of the logger: level names, level
//! filtering, line layout and the file names of per-strategy logs.

use vstd::prelude::*;
use vstd::string::*;
use crate::text::{ascii_lower, is_ascii_alnum, push_char, str_eq, to_ascii_lower};

verus! {

/// Severity of a log message, from least to most severe.
#[derive(Clone, Copy, Debug, PartialEq, Eq, Structural, PartialOrd, Ord, Hash)]
pub enum Level {
    Debug,
    Info,
    Warn,
    Error,
}

/// The position of a level in the order `Debug < Info < Warn < Error`.
pub open spec fn level_rank(level: Level) -> int {
    match level {
        Level::Debug => 0,
        Level::Info => 1,
        Level::Warn => 2,
        Level::Error => 3,
    }
}

/// The upper-case name a level is printed with.
pub open spec fn level_name(level: Level) -> Seq<char> {
    match level {
        Level::Debug => "DEBUG"@,
        Level::Info => "INFO"@,
        Level::Warn => "WARN"@,
        Level::Error => "ERROR"@,
    }
}

/// The level a configuration string names: the four names in any letter
/// case, and `Info` for anything else.
pub open spec fn level_named(s: Seq<char>) -> Level {
    let l = ascii_lower(s);
    if l == "debug"@ {
        Level::Debug
    } else if l == "info"@ {
        Level::Info
    } else if l == "warn"@ {
        Level::Warn
    } else if l == "error"@ {
        Level::Error
    } else {
        Level::Info
    }
}

impl Level {
    /// The upper-case name of the level.
    pub fn as_str(&self) -> (s: &'static str)
        ensures
            s@ == level_name(*self),
    {
        match self {
            Level::Debug => "DEBUG",
            Level::Info => "INFO",
            Level::Warn => "WARN",
            Level::Error => "ERROR",
        }
    }

    /// The position of the level in the severity order.
    pub fn rank(&self) -> (r: u8)
        ensures
            r == level_rank(*self),
    {
        match self {
            Level::Debug => 0,
            Level::Info => 1,
            Level::Warn => 2,
            Level::Error => 3,
        }
    }

    /// Whether a message of this level passes a logger set to `threshold`:
    /// it does unless it is less severe than the threshold.
    pub fn passes(&self, threshold: Level) -> (b: bool)
        ensures
            b == (level_rank(*self) >= level_rank(threshold)),
    {
        self.rank() >= threshold.rank()
    }
}

/// Reads a level from configuration text. Only ASCII letters can lower-case
/// into these four names, so ASCII folding decides exactly as full Unicode
/// lower-casing would.
pub fn parse_level(s: &str) -> (level: Level)
    ensures
        level == level_named(s@),
{
    let lower = to_ascii_lower(s);
    if str_eq(lower.as_str(), "debug") {
        Level::Debug
    } else if str_eq(lower.as_str(), "info") {
        Level::Info
    } else if str_eq(lower.as_str(), "warn") {
        Level::Warn
    } else if str_eq(lower.as_str(), "error") {
        Level::Error
    } else {
        Level::Info
    }
}

/// Reading back the name a level is printed with gives the same level.
pub proof fn law_level_name_round_trip(level: Level)
    ensures
        level_named(level_name(level)) == level,
{
    reveal_strlit("DEBUG");
    reveal_strlit("INFO");
    reveal_strlit("WARN");
    reveal_strlit("ERROR");
    reveal_strlit("debug");
    reveal_strlit("info");
    reveal_strlit("warn");
    reveal_strlit("error");
    let n = level_name(level);
    match level {
        Level::Debug => {
            assert(ascii_lower(n) =~= "debug"@);
        },
        Level::Info => {
            assert(ascii_lower(n) =~= "info"@);
            assert(ascii_lower(n) != "debug"@);
        },
        Level::Warn => {
            assert(ascii_lower(n) =~= "warn"@);
            assert("warn"@.len() != "debug"@.len());
            assert("warn"@[0] != "info"@[0]);
        },
        Level::Error => {
            assert(ascii_lower(n) =~= "error"@);
            assert("error"@[0] != "debug"@[0]);
            assert("error"@.len() != "info"@.len());
            assert("error"@.len() != "warn"@.len());
        },
    }
}

/// Severity grows along `Debug`, `Info`, `Warn`, `Error`: a message passes
/// a threshold exactly when it comes at or after it in that order. So a
/// warning passes an `Info` logger while an info message does not pass a
/// `Warn` one, and an `Error` passes every threshold.
pub proof fn law_severity_order()
    ensures
        level_rank(Level::Debug) < level_rank(Level::Info),
        level_rank(Level::Info) < level_rank(Level::Warn),
        level_rank(Level::Warn) < level_rank(Level::Error),
        level_rank(Level::Warn) >= level_rank(Level::Info),
        !(level_rank(Level::Info) >= level_rank(Level::Warn)),
        forall|t: Level| level_rank(Level::Error) >= #[trigger] level_rank(t),
        forall|m: Level| #[trigger] level_rank(m) >= level_rank(Level::Debug),
{
}

/// Configuration text that names none of the four levels (in any letter
/// case) sets the `Info` threshold.
pub proof fn law_unknown_level_is_info(s: Seq<char>)
    requires
        ascii_lower(s) != "debug"@,
        ascii_lower(s) != "info"@,
        ascii_lower(s) != "warn"@,
        ascii_lower(s) != "error"@,
    ensures
        level_named(s) == Level::Info,
{
}

/// The severity order is a total order: of two levels, exactly one of
/// "passes the other's threshold" and "is strictly less severe" holds, and a
/// level always passes its own threshold.
pub proof fn law_level_order(a: Level, b: Level)
    ensures
        level_rank(a) >= level_rank(b) || level_rank(b) >= level_rank(a),
        level_rank(a) == level_rank(b) <==> a == b,
        level_rank(a) >= level_rank(a),
{
}

/// The character a file-name character is replaced with: ASCII letters,
/// digits, `-` and `_` stay, anything else becomes `_`.
pub open spec fn sanitized_char(c: char) -> char {
    if is_ascii_alnum(c) || c == '-' || c == '_' {
        c
    } else {
        '_'
    }
}

/// `s` made safe to use inside a file name.
pub open spec fn sanitized(s: Seq<char>) -> Seq<char> {
    Seq::new(s.len(), |i: int| sanitized_char(s[i]))
}

/// The file stem of a strategy's own log: `<name>_<id>` after sanitizing
/// both, one of them alone when the other is empty, `unnamed` when both are.
pub open spec fn stem_of(id: Seq<char>, name: Seq<char>) -> Seq<char> {
    let n = sanitized(name);
    let i = sanitized(id);
    if n.len() == 0 && i.len() == 0 {
        "unnamed"@
    } else if n.len() == 0 {
        i
    } else if i.len() == 0 {
        n
    } else {
        n + "_"@ + i
    }
}

/// Replaces every character that is not an ASCII letter, digit, `-` or `_`
/// with `_`.
pub fn sanitize(value: &str) -> (r: String)
    ensures
        r@ == sanitized(value@),
{
    let n = value.unicode_len();
    let mut out = String::new();
    let mut i: usize = 0;
    while i < n
        invariant
            n == value@.len(),
            i <= n,
            out@ == sanitized(value@.take(i as int)),
        decreases n - i,
    {
        let c = value.get_char(i);
        let keep = ('a' <= c && c <= 'z') || ('A' <= c && c <= 'Z') || ('0' <= c && c <= '9')
            || c == '-' || c == '_';
        if keep {
            push_char(&mut out, c);
        } else {
            push_char(&mut out, '_');
        }
        i = i + 1;
        assert(out@ =~= sanitized(value@.take(i as int)));
    }
    assert(value@.take(n as int) =~= value@);
    out
}

/// The file stem of the log file of the strategy with this id and name.
pub fn file_stem(id: &str, name: &str) -> (r: String)
    ensures
        r@ == stem_of(id@, name@),
{
    let name = sanitize(name);
    let id = sanitize(id);
    let name_empty = name.as_str().unicode_len() == 0;
    let id_empty = id.as_str().unicode_len() == 0;
    if name_empty && id_empty {
        String::from_str("unnamed")
    } else if name_empty {
        id
    } else if id_empty {
        name
    } else {
        let mut out = name;
        out.append("_");
        out.append(id.as_str());
        out
    }
}

/// One log line: `[<timestamp>] [<LEVEL>] <message>`.
pub open spec fn log_line(timestamp: Seq<char>, level: Level, message: Seq<char>) -> Seq<char> {
    "["@ + timestamp + "] ["@ + level_name(level) + "] "@ + message
}

/// Lays out one log line.
pub fn format_log_line(timestamp: &str, level: Level, message: &str) -> (r: String)
    ensures
        r@ == log_line(timestamp@, level, message@),
{
    let mut out = String::from_str("[");
    out.append(timestamp);
    out.append("] [");
    out.append(level.as_str());
    out.append("] ");
    out.append(message);
    assert(out@ =~= log_line(timestamp@, level, message@));
    out
}

/// A sanitized name holds only ASCII letters, digits, `-` and `_`, so no
/// path separator or dot survives; it keeps its length, and sanitizing twice
/// changes nothing.
pub proof fn law_sanitized_is_safe(s: Seq<char>)
    ensures
        sanitized(s).len() == s.len(),
        forall|i: int|
            0 <= i < s.len() ==> {
                let c = #[trigger] sanitized(s)[i];
                is_ascii_alnum(c) || c == '-' || c == '_'
            },
        !sanitized(s).contains('/'),
        !sanitized(s).contains('.'),
        sanitized(sanitized(s)) == sanitized(s),
{
    assert(sanitized(sanitized(s)) =~= sanitized(s));
}

/// Two strategies with the same non-empty name but different (sanitized)
/// ids get different log files.
pub proof fn law_distinct_ids_distinct_stems(id1: Seq<char>, id2: Seq<char>, name: Seq<char>)
    requires
        name.len() > 0,
        sanitized(id1) != sanitized(id2),
    ensures
        stem_of(id1, name) != stem_of(id2, name),
{
    reveal_strlit("_");
    let n = sanitized(name);
    let i1 = sanitized(id1);
    let i2 = sanitized(id2);
    let s1 = stem_of(id1, name);
    let s2 = stem_of(id2, name);
    assert("_"@.len() == 1);
    if s1 == s2 {
        assert(s1.len() == s2.len());
        assert(n.len() > 0);
        if i1.len() == 0 && i2.len() == 0 {
            assert(i1 =~= i2);
        }
        if i1.len() != 0 && i2.len() != 0 {
            assert(i1 =~= s1.subrange(n.len() as int + 1, s1.len() as int));
            assert(i2 =~= s2.subrange(n.len() as int + 1, s2.len() as int));
        }
    }
}

} // verus!
