//! Parsers for the compact per-table directive `name[:column[:days]]`, for
//! duration strings such as `60s`, and for SSL-mode names.
use vstd::prelude::*;
use vstd::string::StrSliceExecFns;
use vstd::string::StringExecFns;

use crate::digits::all_digits;
use crate::digits::digits_opt;
use crate::digits::lemma_digits_val_nonneg;
use crate::digits::parse_digits_u64;
use crate::ident::is_ident_char;
use crate::ident::is_valid_tname;
use crate::ident::valid_ident;

verus! {

broadcast use vstd::string::group_string_axioms;

/// Why a table specification was rejected.
#[derive(Clone, Copy, Debug, PartialEq, Eq, Structural)]
pub enum ParseError {
    /// A table or column name holds a character outside `[A-Za-z0-9_]`, or the
    /// table name is empty.
    InvalidIdentifier,
    /// The retention segment is not a non-negative integer that fits the
    /// engine's day counter.
    InvalidRetention,
}

/// One validated cleanup target: safe identifiers and a non-negative
/// retention age in days.
#[derive(Clone, Debug)]
pub struct TableConfig {
    pub name: String,
    pub timestamp_column: String,
    pub days: i64,
}

/// The column compared against the cutoff when the directive names none.
pub open spec fn default_column() -> Seq<char> {
    "created_at"@
}

pub proof fn lemma_default_column_valid()
    ensures
        default_column().len() == 10,
        valid_ident(default_column()),
{
    reveal_strlit("created_at");
    assert forall|i: int| 0 <= i < default_column().len() implies is_ident_char(
        #[trigger] default_column()[i],
    ) by {
        let c = default_column()[i];
        if i == 0 {
            assert(c == 'c');
        } else if i == 1 {
            assert(c == 'r');
        } else if i == 2 {
            assert(c == 'e');
        } else if i == 3 {
            assert(c == 'a');
        } else if i == 4 {
            assert(c == 't');
        } else if i == 5 {
            assert(c == 'e');
        } else if i == 6 {
            assert(c == 'd');
        } else if i == 7 {
            assert(c == '_');
        } else if i == 8 {
            assert(c == 'a');
        } else {
            assert(c == 't');
        }
    }
}

impl TableConfig {
    /// Both identifiers are non-empty and safe to interpolate, and the
    /// retention age is non-negative.
    pub open spec fn wf(self) -> bool {
        &&& self.name@.len() > 0
        &&& valid_ident(self.name@)
        &&& self.timestamp_column@.len() > 0
        &&& valid_ident(self.timestamp_column@)
        &&& self.days >= 0
    }
}

/// Index of the first `:` at or after `from`, or the length when none follows.
pub open spec fn find_colon(s: Seq<char>, from: int) -> int
    decreases s.len() - from,
{
    if from >= s.len() {
        s.len() as int
    } else if s[from] == ':' {
        from
    } else {
        find_colon(s, from + 1)
    }
}

pub proof fn lemma_find_colon(s: Seq<char>, from: int)
    requires
        0 <= from <= s.len(),
    ensures
        from <= find_colon(s, from) <= s.len(),
        find_colon(s, from) < s.len() ==> s[find_colon(s, from)] == ':',
        forall|i: int| from <= i < find_colon(s, from) ==> s[i] != ':',
    decreases s.len() - from,
{
    if from < s.len() && s[from] != ':' {
        lemma_find_colon(s, from + 1);
    }
}

fn find_colon_exec(s: &str, from: usize) -> (r: usize)
    requires
        from <= s@.len(),
    ensures
        r as int == find_colon(s@, from as int),
        from <= r <= s@.len(),
{
    proof {
        lemma_find_colon(s@, from as int);
    }
    let len = s.unicode_len();
    let mut i: usize = from;
    while i < len
        invariant
            from <= i <= len,
            len == s@.len(),
            find_colon(s@, from as int) == find_colon(s@, i as int),
        decreases len - i,
    {
        let c = s.get_char(i);
        if c == ':' {
            return i;
        }
        i += 1;
    }
    i
}

/// A signed decimal numeral: optional `+` or `-` sign, then digits.
pub open spec fn int_opt(s: Seq<char>) -> Option<int> {
    if s.len() == 0 {
        None
    } else if s[0] == '+' {
        digits_opt(s.skip(1))
    } else if s[0] == '-' {
        match digits_opt(s.skip(1)) {
            Option::Some(v) => Some(-v),
            Option::None => None,
        }
    } else {
        digits_opt(s)
    }
}

/// Reads `s[from..to]` as a retention age: an integer in `0 ..= i64::MAX`.
fn parse_days(s: &str, from: usize, to: usize) -> (r: Result<i64, ParseError>)
    requires
        from < to <= s@.len(),
    ensures
        match int_opt(s@.subrange(from as int, to as int)) {
            Option::Some(v) => if 0 <= v <= i64::MAX {
                r == Ok::<i64, ParseError>(v as i64)
            } else {
                r == Err::<i64, ParseError>(ParseError::InvalidRetention)
            },
            Option::None => r == Err::<i64, ParseError>(ParseError::InvalidRetention),
        },
{
    let ghost seg = s@.subrange(from as int, to as int);
    let c = s.get_char(from);
    proof {
        assert(seg[0] == s@[from as int]);
    }
    if c == '+' || c == '-' {
        proof {
            assert(seg.skip(1) =~= s@.subrange(from as int + 1, to as int));
        }
        match parse_digits_u64(s, from + 1, to) {
            Option::Some(v) => {
                proof {
                    if all_digits(seg.skip(1)) && seg.skip(1).len() > 0 {
                        lemma_digits_val_nonneg(seg.skip(1));
                    }
                }
                if c == '-' {
                    if v == 0 {
                        Ok(0)
                    } else {
                        Err(ParseError::InvalidRetention)
                    }
                } else {
                    if v <= i64::MAX as u64 {
                        Ok(v as i64)
                    } else {
                        Err(ParseError::InvalidRetention)
                    }
                }
            },
            Option::None => Err(ParseError::InvalidRetention),
        }
    } else {
        match parse_digits_u64(s, from, to) {
            Option::Some(v) => {
                proof {
                    if all_digits(seg) && seg.len() > 0 {
                        lemma_digits_val_nonneg(seg);
                    }
                }
                if v <= i64::MAX as u64 {
                    Ok(v as i64)
                } else {
                    Err(ParseError::InvalidRetention)
                }
            },
            Option::None => Err(ParseError::InvalidRetention),
        }
    }
}

/// Meaning of a raw directive string: the validated name, the column (given
/// or defaulted), and the retention age, or the first error in
/// name-column-days order.
pub open spec fn spec_parse(s: Seq<char>) -> Result<(Seq<char>, Seq<char>, int), ParseError> {
    let c0 = find_colon(s, 0);
    let name = s.subrange(0, c0);
    if name.len() == 0 || !valid_ident(name) {
        Err(ParseError::InvalidIdentifier)
    } else if c0 == s.len() {
        Ok((name, default_column(), 0))
    } else {
        let c1 = find_colon(s, c0 + 1);
        let colseg = s.subrange(c0 + 1, c1);
        if colseg.len() > 0 && !valid_ident(colseg) {
            Err(ParseError::InvalidIdentifier)
        } else {
            let col = if colseg.len() == 0 {
                default_column()
            } else {
                colseg
            };
            if c1 == s.len() {
                Ok((name, col, 0))
            } else {
                let dseg = s.subrange(c1 + 1, s.len() as int);
                if dseg.len() == 0 {
                    Ok((name, col, 0))
                } else {
                    match int_opt(dseg) {
                        Option::Some(v) => if 0 <= v <= i64::MAX {
                            Ok((name, col, v))
                        } else {
                            Err(ParseError::InvalidRetention)
                        },
                        Option::None => Err(ParseError::InvalidRetention),
                    }
                }
            }
        }
    }
}

impl TableConfig {
    /// Parses `name[:column[:days]]`. The name is mandatory and must be a
    /// safe identifier; an absent or empty column defaults to `created_at`;
    /// an absent or empty days segment defaults to `0`. The days segment is
    /// everything after the second colon, so a directive with a further colon
    /// fails as an invalid retention age rather than being partly ignored.
    pub fn parse(s: &str) -> (r: Result<TableConfig, ParseError>)
        ensures
            match spec_parse(s@) {
                Ok(t) => {
                    &&& r is Ok
                    &&& r->Ok_0.name@ == t.0
                    &&& r->Ok_0.timestamp_column@ == t.1
                    &&& r->Ok_0.days as int == t.2
                    &&& r->Ok_0.wf()
                },
                Err(e) => r == Err::<TableConfig, ParseError>(e),
            },
    {
        let len = s.unicode_len();
        proof {
            lemma_find_colon(s@, 0);
            lemma_default_column_valid();
        }
        let c0 = find_colon_exec(s, 0);
        let name_s = s.substring_char(0, c0);
        if c0 == 0 || !is_valid_tname(name_s) {
            return Err(ParseError::InvalidIdentifier);
        }
        let name = String::from_str(name_s);
        if c0 == len {
            return Ok(
                TableConfig { name, timestamp_column: String::from_str("created_at"), days: 0 },
            );
        }
        proof {
            lemma_find_colon(s@, c0 as int + 1);
        }
        let c1 = find_colon_exec(s, c0 + 1);
        let col_s = s.substring_char(c0 + 1, c1);
        let timestamp_column: String;
        if col_s.unicode_len() == 0 {
            timestamp_column = String::from_str("created_at");
        } else if !is_valid_tname(col_s) {
            return Err(ParseError::InvalidIdentifier);
        } else {
            timestamp_column = String::from_str(col_s);
        }
        if c1 == len {
            return Ok(TableConfig { name, timestamp_column, days: 0 });
        }
        if c1 + 1 == len {
            return Ok(TableConfig { name, timestamp_column, days: 0 });
        }
        match parse_days(s, c1 + 1, len) {
            Ok(days) => Ok(TableConfig { name, timestamp_column, days }),
            Err(e) => Err(e),
        }
    }
}

/// Character-by-character string equality, usable where no specification for
/// `str` comparison exists.
pub fn str_eq(a: &str, b: &str) -> (r: bool)
    ensures
        r == (a@ == b@),
{
    let la = a.unicode_len();
    let lb = b.unicode_len();
    if la != lb {
        return false;
    }
    let mut i: usize = 0;
    while i < la
        invariant
            0 <= i <= la,
            la == a@.len(),
            la == b@.len(),
            forall|j: int| 0 <= j < i ==> a@[j] == b@[j],
        decreases la - i,
    {
        if a.get_char(i) != b.get_char(i) {
            return false;
        }
        i += 1;
    }
    proof {
        assert(a@ =~= b@);
    }
    true
}

/// TLS behavior requested for the database connection.
#[derive(Clone, Copy, Debug, PartialEq, Eq, Structural)]
pub enum SslMode {
    Disable,
    Require,
    VerifyCa,
    VerifyFull,
}

/// Recognizes exactly the four documented SSL-mode names.
pub fn parse_ssl_mode(mode: &str) -> (r: Option<SslMode>)
    ensures
        mode@ == "disable"@ ==> r == Some(SslMode::Disable),
        mode@ == "require"@ ==> r == Some(SslMode::Require),
        mode@ == "verify-ca"@ ==> r == Some(SslMode::VerifyCa),
        mode@ == "verify-full"@ ==> r == Some(SslMode::VerifyFull),
        (mode@ != "disable"@ && mode@ != "require"@ && mode@ != "verify-ca"@ && mode@
            != "verify-full"@) ==> r is None,
{
    proof {
        reveal_strlit("disable");
        reveal_strlit("require");
        reveal_strlit("verify-ca");
        reveal_strlit("verify-full");
        assert("disable"@.len() == 7);
        assert("require"@.len() == 7);
        assert("verify-ca"@.len() == 9);
        assert("verify-full"@.len() == 11);
        assert("disable"@[0] == 'd');
        assert("require"@[0] == 'r');
    }
    if str_eq(mode, "disable") {
        Some(SslMode::Disable)
    } else if str_eq(mode, "require") {
        Some(SslMode::Require)
    } else if str_eq(mode, "verify-ca") {
        Some(SslMode::VerifyCa)
    } else if str_eq(mode, "verify-full") {
        Some(SslMode::VerifyFull)
    } else {
        None
    }
}

/// Why a duration string was rejected.
#[derive(Clone, Copy, Debug, PartialEq, Eq, Structural)]
pub enum DurationError {
    /// The string does not end with the `s` unit suffix.
    MissingSuffix,
    /// What precedes the suffix is not a `u64` decimal numeral.
    InvalidNumber,
}

/// Meaning of a duration string: a numeral (optional `+` sign) followed by
/// `s`, worth its count of seconds.
pub open spec fn spec_duration(s: Seq<char>) -> Result<int, DurationError> {
    if s.len() == 0 || s.last() != 's' {
        Err(DurationError::MissingSuffix)
    } else {
        let body = s.drop_last();
        let num = if body.len() > 0 && body[0] == '+' {
            digits_opt(body.skip(1))
        } else {
            digits_opt(body)
        };
        match num {
            Option::Some(v) => if v <= u64::MAX {
                Ok(v)
            } else {
                Err(DurationError::InvalidNumber)
            },
            Option::None => Err(DurationError::InvalidNumber),
        }
    }
}

/// Parses a duration given as whole seconds with an `s` suffix, e.g. `60s`.
pub fn parse_duration(s: &str) -> (r: Result<u64, DurationError>)
    ensures
        match spec_duration(s@) {
            Ok(v) => r == Ok::<u64, DurationError>(v as u64),
            Err(e) => r == Err::<u64, DurationError>(e),
        },
{
    let len = s.unicode_len();
    if len == 0 {
        return Err(DurationError::MissingSuffix);
    }
    let last = s.get_char(len - 1);
    if last != 's' {
        return Err(DurationError::MissingSuffix);
    }
    let ghost body = s@.drop_last();
    proof {
        assert(body =~= s@.subrange(0, len - 1));
        if body.len() > 0 {
            assert(body.skip(1) =~= s@.subrange(1, len - 1));
        }
        if all_digits(body) && body.len() > 0 {
            lemma_digits_val_nonneg(body);
        }
        if body.len() > 0 && all_digits(body.skip(1)) && body.skip(1).len() > 0 {
            lemma_digits_val_nonneg(body.skip(1));
        }
    }
    if len == 1 {
        return Err(DurationError::InvalidNumber);
    }
    let first = s.get_char(0);
    let num = if first == '+' {
        parse_digits_u64(s, 1, len - 1)
    } else {
        parse_digits_u64(s, 0, len - 1)
    };
    match num {
        Option::Some(v) => Ok(v),
        Option::None => Err(DurationError::InvalidNumber),
    }
}

} // verus!
