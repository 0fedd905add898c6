use vstd::prelude::*;
use vstd::string::StrSliceExecFns;
use vstd::string::StringExecFns;
use crate::config::ConfigError;

verus! {

/// Whether the regex engine accepts a pattern. This depends on the pattern
/// text alone, so the outcome of compiling it can be given a name.
pub uninterp spec fn regex_ok(pattern: Seq<char>) -> bool;

/// Whether a compiled pattern matches a haystack. For a fixed pattern and
/// haystack the engine always answers the same, so the answer can be named.
pub uninterp spec fn regex_matches(pattern: Seq<char>, text: Seq<char>) -> bool;

/// Relies on regex::Regex::new: whether a pattern compiles is a function of
/// the pattern text alone (the crate's default limits are fixed constants).
#[verifier::external_body]
pub(crate) fn regex_compiles(pattern: &str) -> (r: bool)
    ensures
        r == regex_ok(pattern@),
{
    regex::Regex::new(pattern).is_ok()
}

/// Relies on regex::Regex::new and regex::Regex::is_match: for a pattern that
/// compiles, whether a haystack matches is a function of the pattern text and
/// the haystack alone.
#[verifier::external_body]
pub(crate) fn regex_is_match(pattern: &str, text: &str) -> (r: bool)
    requires
        regex_ok(pattern@),
    ensures
        r == regex_matches(pattern@, text@),
{
    match regex::Regex::new(pattern) {
        Ok(re) => re.is_match(text),
        Err(_) => false,
    }
}

/// The body of the anchored pattern a glob expands to: every `*` becomes
/// `(.*)`, every other character is kept as it is.
pub open spec fn glob_body(glob: Seq<char>) -> Seq<char>
    decreases glob.len(),
{
    if glob.len() == 0 {
        Seq::empty()
    } else if glob.last() == '*' {
        glob_body(glob.drop_last()) + seq!['(', '.', '*', ')']
    } else {
        glob_body(glob.drop_last()).push(glob.last())
    }
}

/// A glob name pattern, expanded and anchored at both ends.
pub open spec fn glob_pattern(glob: Seq<char>) -> Seq<char> {
    seq!['^'] + glob_body(glob) + seq!['$']
}

/// The case-insensitive form of the anchored glob pattern.
pub open spec fn iglob_pattern(glob: Seq<char>) -> Seq<char> {
    seq!['(', '?', 'i', ')'] + glob_pattern(glob)
}

/// Expand a glob into the regex pattern it stands for.
pub fn glob_to_pattern(glob: &str, case_insensitive: bool) -> (r: String)
    ensures
        case_insensitive ==> r@ == iglob_pattern(glob@),
        !case_insensitive ==> r@ == glob_pattern(glob@),
{
    let mut out: String = if case_insensitive {
        String::from_str("(?i)^")
    } else {
        String::from_str("^")
    };
    proof {
        reveal_strlit("(?i)^");
        reveal_strlit("^");
    }
    let ghost prefix: Seq<char> = out@;
    proof {
        if case_insensitive {
            assert(prefix =~= seq!['(', '?', 'i', ')', '^']);
        } else {
            assert(prefix =~= seq!['^']);
        }
    }
    let n: usize = glob.unicode_len();
    let mut i: usize = 0;
    while i < n
        invariant
            i <= n,
            n == glob@.len(),
            out@ == prefix + glob_body(glob@.subrange(0, i as int)),
        decreases n - i,
    {
        let ghost done: Seq<char> = glob@.subrange(0, i as int);
        let c = glob.get_char(i);
        if c == '*' {
            out.append("(.*)");
            proof {
                reveal_strlit("(.*)");
            }
        } else {
            let piece = glob.substring_char(i, i + 1);
            out.append(piece);
            proof {
                assert(piece@ =~= seq![glob@[i as int]]);
            }
        }
        proof {
            let next = glob@.subrange(0, i + 1);
            assert(next.drop_last() =~= done);
            assert(next.last() == glob@[i as int]);
            if c == '*' {
                assert(out@ =~= prefix + glob_body(next));
            } else {
                assert(glob_body(next) =~= glob_body(done).push(glob@[i as int]));
                assert(out@ =~= prefix + glob_body(next));
            }
        }
        i = i + 1;
    }
    out.append("$");
    proof {
        reveal_strlit("$");
        assert(glob@.subrange(0, n as int) =~= glob@);
        if case_insensitive {
            assert(out@ =~= iglob_pattern(glob@));
        } else {
            assert(out@ =~= glob_pattern(glob@));
        }
    }
    out
}

/// The final path component: the characters after the last `/`, or the whole
/// path when it holds no `/`.
pub open spec fn final_component(path: Seq<char>) -> Seq<char>
    decreases path.len(),
{
    if path.len() == 0 {
        path
    } else if path.last() == '/' {
        Seq::empty()
    } else {
        final_component(path.drop_last()).push(path.last())
    }
}

proof fn lemma_final_component_suffix(p: Seq<char>, cut: int)
    requires
        0 <= cut <= p.len(),
        forall|k: int| cut <= k < p.len() ==> p[k] != '/',
        cut > 0 ==> p[cut - 1] == '/',
    ensures
        final_component(p) == p.subrange(cut, p.len() as int),
    decreases p.len(),
{
    if cut == p.len() {
        if p.len() == 0 {
            assert(final_component(p) =~= p.subrange(cut, p.len() as int));
        } else {
            assert(p.last() == '/');
            assert(final_component(p) =~= p.subrange(cut, p.len() as int));
        }
    } else {
        assert(p.last() != '/');
        let q = p.drop_last();
        lemma_final_component_suffix(q, cut);
        assert(q.subrange(cut, q.len() as int).push(p.last()) =~= p.subrange(
            cut,
            p.len() as int,
        ));
    }
}

/// The final path component of a path, as a slice of it.
pub fn final_component_of(path: &str) -> (r: &str)
    ensures
        r@ == final_component(path@),
{
    let n: usize = path.unicode_len();
    let mut cut: usize = 0;
    let mut j: usize = 0;
    while j < n
        invariant
            j <= n,
            n == path@.len(),
            cut <= j,
            forall|k: int| cut <= k < j ==> path@[k] != '/',
            cut > 0 ==> path@[cut - 1] == '/',
        decreases n - j,
    {
        if path.get_char(j) == '/' {
            cut = j + 1;
        }
        j = j + 1;
    }
    let r = path.substring_char(cut, n);
    proof {
        lemma_final_component_suffix(path@, cut as int);
    }
    r
}

/// A compiled name filter: the regex pattern it was built from, accepted by
/// the regex engine.
#[derive(Debug)]
pub struct NameMatcher {
    pub pattern: String,
}

impl NameMatcher {
    /// The matcher's pattern is one the regex engine accepts.
    pub open spec fn wf(self) -> bool {
        regex_ok(self.pattern@)
    }

    /// Build a matcher from a raw regular-expression pattern.
    pub fn new(pattern: String) -> (r: Result<NameMatcher, ConfigError>)
        ensures
            regex_ok(pattern@) ==> (r matches Ok(m) && m.pattern == pattern && m.wf()),
            !regex_ok(pattern@) ==> (r matches Err(e) && e == ConfigError::InvalidRegex),
    {
        if regex_compiles(pattern.as_str()) {
            Ok(NameMatcher { pattern })
        } else {
            Err(ConfigError::InvalidRegex)
        }
    }

    /// Whether the matcher accepts the given text.
    pub fn matches(&self, text: &str) -> (r: bool)
        requires
            self.wf(),
        ensures
            r == regex_matches(self.pattern@, text@),
    {
        regex_is_match(self.pattern.as_str(), text)
    }
}

} // verus!
