use vstd::prelude::*;
use vstd::string::StrSliceExecFns;
use crate::matcher::{
    glob_pattern, glob_to_pattern, iglob_pattern, regex_ok, NameMatcher,
};

verus! {

/// The kind of filesystem entry the search is asked to report.
#[derive(Clone, Copy, Debug, PartialEq, Eq, Structural)]
pub enum FindType {
    File,
    Dir,
    Symlink,
}

/// A size constraint over a byte count, already multiplied into raw bytes.
#[derive(Clone, Copy, Debug, PartialEq, Eq, Structural)]
pub enum SizeType {
    ExactlyEquals(u64),
    AtLeast(u64),
    AtMost(u64),
}

/// A configuration-time failure: detected once, before any traversal.
#[derive(Clone, Copy, Debug, PartialEq, Eq, Structural)]
pub enum ConfigError {
    /// The entry-kind token is not one of `f`, `d`, `s`.
    UnknownType,
    /// The size token does not fit the grammar, or its byte count overflows.
    UnknownSize,
    /// More than one of regex, glob and case-insensitive glob was supplied.
    AmbiguousNameMatcher,
    /// The name pattern is not accepted by the regex engine.
    InvalidRegex,
    /// A maximum depth of zero was supplied.
    InvalidDepth,
}

pub open spec fn is_sign_char(c: char) -> bool {
    c == '+' || c == '-'
}

pub open spec fn is_digit_char(c: char) -> bool {
    '0' as int <= c as int && c as int <= '9' as int
}

pub open spec fn is_unit_char(c: char) -> bool {
    c == 'K' || c == 'M' || c == 'G'
}

/// How many leading characters of a size token form its sign: one or none.
pub open spec fn sign_len(s: Seq<char>) -> int {
    if s.len() > 0 && is_sign_char(s[0]) {
        1int
    } else {
        0int
    }
}

/// How many trailing characters of a size token form its unit: one or none.
pub open spec fn unit_len(s: Seq<char>) -> int {
    if s.len() > 0 && is_unit_char(s.last()) {
        1int
    } else {
        0int
    }
}

/// The characters of a size token between its sign and its unit.
pub open spec fn digits_of(s: Seq<char>) -> Seq<char> {
    s.subrange(sign_len(s), s.len() - unit_len(s))
}

pub open spec fn all_digit_chars(s: Seq<char>) -> bool {
    forall|i: int| 0 <= i < s.len() ==> is_digit_char(s[i])
}

/// Whether a token fits the size grammar: an optional sign, then at least
/// one digit, then an optional unit.
pub open spec fn is_size_token(s: Seq<char>) -> bool {
    digits_of(s).len() >= 1 && all_digit_chars(digits_of(s))
}

pub open spec fn digit_val(c: char) -> int {
    c as int - '0' as int
}

/// The number a digit string denotes, most significant digit first.
pub open spec fn digits_val(s: Seq<char>) -> int
    decreases s.len(),
{
    if s.len() == 0 {
        0
    } else {
        10 * digits_val(s.drop_last()) + digit_val(s.last())
    }
}

/// The factor the token's unit stands for: K, M and G scale by powers of 1024.
pub open spec fn multiplier_of(s: Seq<char>) -> int {
    if unit_len(s) == 1 {
        if s.last() == 'K' {
            1024
        } else if s.last() == 'M' {
            1048576
        } else {
            1073741824
        }
    } else {
        1
    }
}

/// The byte count a size token denotes.
pub open spec fn token_bytes(s: Seq<char>) -> int {
    digits_val(digits_of(s)) * multiplier_of(s)
}

pub open spec fn token_fits(s: Seq<char>) -> bool {
    token_bytes(s) <= u64::MAX
}

/// The constraint a valid size token denotes: `+` asks for at least, `-` for
/// at most, and no sign for exactly the denoted byte count.
pub open spec fn spec_size_type(s: Seq<char>) -> SizeType {
    if sign_len(s) == 1 && s[0] == '+' {
        SizeType::AtLeast(token_bytes(s) as u64)
    } else if sign_len(s) == 1 {
        SizeType::AtMost(token_bytes(s) as u64)
    } else {
        SizeType::ExactlyEquals(token_bytes(s) as u64)
    }
}

proof fn lemma_digits_val_nonneg(t: Seq<char>)
    requires
        all_digit_chars(t),
    ensures
        digits_val(t) >= 0,
    decreases t.len(),
{
    if t.len() > 0 {
        assert(all_digit_chars(t.drop_last()));
        lemma_digits_val_nonneg(t.drop_last());
    }
}

proof fn lemma_digits_val_mono(t: Seq<char>, k: int)
    requires
        all_digit_chars(t),
        0 <= k <= t.len(),
    ensures
        digits_val(t.subrange(0, k)) <= digits_val(t),
    decreases t.len() - k,
{
    if k == t.len() {
        assert(t.subrange(0, k) =~= t);
    } else {
        lemma_digits_val_mono(t, k + 1);
        let u = t.subrange(0, k + 1);
        assert(u.drop_last() =~= t.subrange(0, k));
        assert(all_digit_chars(t.subrange(0, k)));
        lemma_digits_val_nonneg(t.subrange(0, k));
    }
}

impl SizeType {
    /// Parse a size token of the grammar `[+-]?[0-9]+[KMG]?`. A token outside
    /// the grammar, and one whose byte count does not fit in a `u64`, is
    /// rejected.
    pub fn parse(s: &str) -> (r: Result<SizeType, ConfigError>)
        ensures
            r matches Ok(st) ==> is_size_token(s@) && token_fits(s@) && st == spec_size_type(
                s@,
            ),
            r matches Err(e) ==> e == ConfigError::UnknownSize && !(is_size_token(s@)
                && token_fits(s@)),
    {
        let n: usize = s.unicode_len();
        let mut start: usize = 0;
        let mut plus: bool = false;
        let mut minus: bool = false;
        if n > 0 {
            let c0 = s.get_char(0);
            if c0 == '+' {
                plus = true;
                start = 1;
            } else if c0 == '-' {
                minus = true;
                start = 1;
            }
        }
        let mut end: usize = n;
        let mut mult: u64 = 1;
        if n > 0 {
            let cl = s.get_char(n - 1);
            if cl == 'K' {
                mult = 1024;
                end = n - 1;
            } else if cl == 'M' {
                mult = 1048576;
                end = n - 1;
            } else if cl == 'G' {
                mult = 1073741824;
                end = n - 1;
            }
        }
        proof {
            assert(start as int == sign_len(s@));
            assert(end as int == s@.len() - unit_len(s@));
            assert(mult as int == multiplier_of(s@));
            assert(plus <==> (sign_len(s@) == 1 && s@[0] == '+'));
            assert(minus <==> (sign_len(s@) == 1 && s@[0] == '-'));
        }
        if end <= start {
            proof {
                assert(digits_of(s@).len() == 0);
            }
            return Err(ConfigError::UnknownSize);
        }
        let mut acc: u64 = 0;
        let mut i: usize = start;
        while i < end
            invariant
                start <= i <= end,
                end <= n,
                n == s@.len(),
                start as int == sign_len(s@),
                end as int == s@.len() - unit_len(s@),
                mult as int == multiplier_of(s@),
                forall|k: int| start <= k < i ==> is_digit_char(s@[k]),
                acc as int == digits_val(s@.subrange(start as int, i as int)),
            decreases end - i,
        {
            let c = s.get_char(i);
            let cv: u32 = c as u32;
            if cv < 48 || cv > 57 {
                proof {
                    assert(digits_of(s@)[i - start as int] == s@[i as int]);
                    assert(!is_digit_char(s@[i as int]));
                }
                return Err(ConfigError::UnknownSize);
            }
            let d: u64 = (cv - 48) as u64;
            let ghost done = s@.subrange(start as int, i as int);
            let ghost next = s@.subrange(start as int, i + 1);
            proof {
                assert(next.drop_last() =~= done);
                assert(next.last() == s@[i as int]);
                assert(digits_val(next) == 10 * (acc as int) + d);
            }
            if acc > (u64::MAX - d) / 10 {
                proof {
                    if is_size_token(s@) {
                        let dg = digits_of(s@);
                        assert(dg.subrange(0, i + 1 - start as int) =~= next);
                        lemma_digits_val_mono(dg, i + 1 - start as int);
                        assert(digits_val(dg) >= digits_val(next));
                        assert(10 * (acc as int) + d > u64::MAX);
                        lemma_digits_val_nonneg(dg);
                        assert(token_bytes(s@) == digits_val(dg) * multiplier_of(s@));
                        if multiplier_of(s@) == 1 {
                            assert(token_bytes(s@) > u64::MAX);
                        } else if multiplier_of(s@) == 1024 {
                            assert(token_bytes(s@) > u64::MAX);
                        } else if multiplier_of(s@) == 1048576 {
                            assert(token_bytes(s@) > u64::MAX);
                        } else {
                            assert(multiplier_of(s@) == 1073741824);
                            assert(token_bytes(s@) > u64::MAX);
                        }
                    }
                }
                return Err(ConfigError::UnknownSize);
            }
            acc = acc * 10 + d;
            i = i + 1;
        }
        proof {
            assert(digits_of(s@) =~= s@.subrange(start as int, end as int));
            assert(acc as int == digits_val(digits_of(s@)));
            assert(is_size_token(s@));
        }
        let bytes: u64;
        if mult == 1 {
            bytes = acc;
        } else if mult == 1024 {
            if acc > u64::MAX / 1024 {
                return Err(ConfigError::UnknownSize);
            }
            bytes = acc * 1024;
        } else if mult == 1048576 {
            if acc > u64::MAX / 1048576 {
                return Err(ConfigError::UnknownSize);
            }
            bytes = acc * 1048576;
        } else {
            if acc > u64::MAX / 1073741824 {
                return Err(ConfigError::UnknownSize);
            }
            bytes = acc * 1073741824;
        }
        proof {
            assert(bytes as int == token_bytes(s@));
            assert(token_fits(s@));
        }
        if plus {
            Ok(SizeType::AtLeast(bytes))
        } else if minus {
            Ok(SizeType::AtMost(bytes))
        } else {
            Ok(SizeType::ExactlyEquals(bytes))
        }
    }
}

/// Whether a size constraint accepts an entry whose byte length is `size`,
/// `None` standing for a length that could not be read.
pub open spec fn size_matches(c: Option<SizeType>, size: Option<u64>) -> bool {
    match c {
        Option::None => true,
        Option::Some(st) => match size {
            Option::None => false,
            Option::Some(sz) => match st {
                SizeType::ExactlyEquals(b) => sz == b,
                SizeType::AtLeast(b) => sz >= b,
                SizeType::AtMost(b) => sz <= b,
            },
        },
    }
}

/// The entry kind a kind token denotes, if any.
pub open spec fn type_token_of(s: Seq<char>) -> Option<FindType> {
    if s.len() == 1 && s[0] == 'f' {
        Option::Some(FindType::File)
    } else if s.len() == 1 && s[0] == 'd' {
        Option::Some(FindType::Dir)
    } else if s.len() == 1 && s[0] == 's' {
        Option::Some(FindType::Symlink)
    } else {
        Option::None
    }
}

/// The pattern a single name-filter source denotes, or the error when the
/// regex engine rejects it.
pub open spec fn pattern_result(p: Seq<char>) -> Result<Option<Seq<char>>, ConfigError> {
    if regex_ok(p) {
        Result::Ok(Option::Some(p))
    } else {
        Result::Err(ConfigError::InvalidRegex)
    }
}

/// What building a name matcher from the three optional sources yields: the
/// pattern of the one source given, nothing when none is, and an error when
/// several are.
pub open spec fn matcher_spec(
    regex: Option<Seq<char>>,
    name: Option<Seq<char>>,
    iname: Option<Seq<char>>,
) -> Result<Option<Seq<char>>, ConfigError> {
    match (regex, name, iname) {
        (Option::Some(p), Option::None, Option::None) => pattern_result(p),
        (Option::None, Option::Some(g), Option::None) => pattern_result(glob_pattern(g)),
        (Option::None, Option::None, Option::Some(g)) => pattern_result(iglob_pattern(g)),
        (Option::None, Option::None, Option::None) => Result::Ok(Option::None),
        _ => Result::Err(ConfigError::AmbiguousNameMatcher),
    }
}

/// The patterns of an optional matcher, for comparing against `matcher_spec`.
pub open spec fn matcher_view(m: Option<NameMatcher>) -> Option<Seq<char>> {
    match m {
        Option::Some(nm) => Option::Some(nm.pattern@),
        Option::None => Option::None,
    }
}

/// Build the name matcher from exactly one of the three sources: a raw regex,
/// a glob, or a case-insensitive glob.
pub fn create_name_matcher(
    regex: Option<String>,
    name: Option<String>,
    iname: Option<String>,
) -> (r: Result<Option<NameMatcher>, ConfigError>)
    ensures
        matcher_spec(regex.deep_view(), name.deep_view(), iname.deep_view()) matches Ok(p)
            ==> (r matches Ok(m) && matcher_view(m) == p && (m matches Some(nm)
            ==> nm.wf())),
        matcher_spec(regex.deep_view(), name.deep_view(), iname.deep_view()) matches Err(e)
            ==> r matches Err(e2) && e2 == e,
{
    match (regex, name, iname) {
        (Some(p), None, None) => match NameMatcher::new(p) {
            Ok(m) => Ok(Some(m)),
            Err(e) => Err(e),
        },
        (None, Some(g), None) => {
            let pat = glob_to_pattern(g.as_str(), false);
            match NameMatcher::new(pat) {
                Ok(m) => Ok(Some(m)),
                Err(e) => Err(e),
            }
        },
        (None, None, Some(g)) => {
            let pat = glob_to_pattern(g.as_str(), true);
            match NameMatcher::new(pat) {
                Ok(m) => Ok(Some(m)),
                Err(e) => Err(e),
            }
        },
        (None, None, None) => Ok(None),
        _ => Err(ConfigError::AmbiguousNameMatcher),
    }
}

/// The validated, immutable bundle of matching criteria.
#[derive(Debug)]
pub struct Config {
    /// The root the traversal starts from.
    pub dir: String,
    /// The entry kind reported entries must have.
    pub find_type: FindType,
    /// An optional size constraint, applied to regular files only.
    pub size_in_bytes: Option<SizeType>,
    /// An optional name filter, applied to an entry's final path component.
    pub matcher: Option<NameMatcher>,
    /// An optional maximum traversal depth; at least one when present.
    pub depth: Option<u16>,
}

impl Config {
    /// A configuration the verified evaluation and traversal rely on: a
    /// matcher the regex engine accepts, and a positive depth bound.
    pub open spec fn wf(self) -> bool {
        &&& (match self.matcher {
            Option::Some(m) => m.wf(),
            Option::None => true,
        })
        &&& (match self.depth {
            Option::Some(d) => d >= 1,
            Option::None => true,
        })
    }
}

/// The first failure configuration validation reports, in the order the
/// inputs are examined: kind, size, name matcher, depth.
pub open spec fn first_config_error(
    find_type: Seq<char>,
    size: Option<Seq<char>>,
    regex: Option<Seq<char>>,
    name: Option<Seq<char>>,
    iname: Option<Seq<char>>,
    depth: Option<u16>,
) -> Option<ConfigError> {
    if type_token_of(find_type) is None {
        Option::Some(ConfigError::UnknownType)
    } else if size matches Some(s) && !(is_size_token(s) && token_fits(s)) {
        Option::Some(ConfigError::UnknownSize)
    } else {
        match matcher_spec(regex, name, iname) {
            Result::Err(e) => Option::Some(e),
            Result::Ok(_) => {
                if depth matches Some(d) && d == 0 {
                    Option::Some(ConfigError::InvalidDepth)
                } else {
                    Option::None
                }
            },
        }
    }
}

impl Config {
    /// Validate resolved command inputs into a configuration, or report the
    /// first configuration error.
    pub fn parse(
        dir: String,
        find_type: &str,
        size: Option<String>,
        name: Option<String>,
        iname: Option<String>,
        regex: Option<String>,
        depth: Option<u16>,
    ) -> (r: Result<Config, ConfigError>)
        ensures
            r matches Err(e) ==> Some(e) == first_config_error(
                find_type@,
                size.deep_view(),
                regex.deep_view(),
                name.deep_view(),
                iname.deep_view(),
                depth,
            ),
            r matches Ok(c) ==> {
                &&& first_config_error(
                    find_type@,
                    size.deep_view(),
                    regex.deep_view(),
                    name.deep_view(),
                    iname.deep_view(),
                    depth,
                ) is None
                &&& c.wf()
                &&& c.dir == dir
                &&& Some(c.find_type) == type_token_of(find_type@)
                &&& (match size.deep_view() {
                    Option::Some(s) => c.size_in_bytes == Some(spec_size_type(s)),
                    Option::None => c.size_in_bytes is None,
                })
                &&& Ok::<Option<Seq<char>>, ConfigError>(matcher_view(c.matcher)) == matcher_spec(
                    regex.deep_view(),
                    name.deep_view(),
                    iname.deep_view(),
                )
                &&& c.depth == depth
            },
    {
        let n: usize = find_type.unicode_len();
        let ft: FindType;
        if n == 1 && find_type.get_char(0) == 'f' {
            ft = FindType::File;
        } else if n == 1 && find_type.get_char(0) == 'd' {
            ft = FindType::Dir;
        } else if n == 1 && find_type.get_char(0) == 's' {
            ft = FindType::Symlink;
        } else {
            return Err(ConfigError::UnknownType);
        }
        let size_cfg: Option<SizeType> = match size {
            Some(s) => match SizeType::parse(s.as_str()) {
                Ok(st) => Some(st),
                Err(_) => {
                    return Err(ConfigError::UnknownSize);
                },
            },
            None => None,
        };
        let matcher_cfg: Option<NameMatcher> = match create_name_matcher(regex, name, iname) {
            Ok(m) => m,
            Err(e) => {
                return Err(e);
            },
        };
        if let Some(d) = depth {
            if d == 0 {
                return Err(ConfigError::InvalidDepth);
            }
        }
        Ok(
            (Config {
                dir,
                find_type: ft,
                size_in_bytes: size_cfg,
                matcher: matcher_cfg,
                depth,
            }),
        )
    }
}

impl Default for Config {
    /// The configuration the command starts from: search the current
    /// directory for regular files, with no filters and no depth bound.
    fn default() -> (r: Config)
        ensures
            r.dir@ == "."@,
            r.find_type == FindType::File,
            r.size_in_bytes is None,
            r.matcher is None,
            r.depth is None,
            r.wf(),
    {
        Config {
            dir: String::from_str("."),
            find_type: FindType::File,
            size_in_bytes: None,
            matcher: None,
            depth: None,
        }
    }
}

} // verus!
