//! The wildcard-pattern compiler and the matcher built on it.
//!
//! A wildcard pattern is translated, character by character, into an anchored
//! regular expression: `**` matches anything, a single `*` and `?` match
//! within one path component, regex metacharacters are escaped so they match
//! themselves, `[`/`]` pass through to allow character classes, and `{`, `}`
//! and `,` form alternation groups (every comma in the pattern becomes an
//! alternation separator, a documented limitation of the translation).
//!
//! The translation itself is fully verified against `glob_regex`. Compiling
//! and running the resulting regular expression is delegated to the `regex`
//! crate through trusted declarations.

use vstd::prelude::*;
use vstd::string::StrSliceExecFns;

verus! {

/// Regex metacharacters that the compiler escapes so they match themselves.
pub open spec fn needs_escape(c: char) -> bool {
    c == '.' || c == '^' || c == '$' || c == '(' || c == ')' || c == '|' || c == '+'
        || c == '\\' || c == '/'
}

/// The regex fragment produced for a pattern's characters, read left to right.
pub open spec fn glob_body(p: Seq<char>) -> Seq<char>
    decreases p.len(),
{
    if p.len() == 0 {
        Seq::empty()
    } else if p[0] == '*' && p.len() >= 2 && p[1] == '*' {
        seq!['.', '*'] + glob_body(p.skip(2))
    } else if p[0] == '*' {
        seq!['[', '^', '/', ']', '*'] + glob_body(p.skip(1))
    } else if p[0] == '?' {
        seq!['[', '^', '/', ']'] + glob_body(p.skip(1))
    } else if needs_escape(p[0]) {
        seq!['\\', p[0]] + glob_body(p.skip(1))
    } else if p[0] == '{' {
        seq!['(', '?', ':'] + glob_body(p.skip(1))
    } else if p[0] == '}' {
        seq![')'] + glob_body(p.skip(1))
    } else if p[0] == ',' {
        seq!['|'] + glob_body(p.skip(1))
    } else {
        seq![p[0]] + glob_body(p.skip(1))
    }
}

/// The full anchored regular expression for a wildcard pattern: the
/// translated body between `^` and `$`, so the whole candidate must match.
pub open spec fn glob_regex(p: Seq<char>) -> Seq<char> {
    seq!['^'] + glob_body(p) + seq!['$']
}

/// The characters of a string slice, in order.
fn str_chars(s: &str) -> (r: Vec<char>)
    ensures
        r@ == s@,
{
    let n = s.unicode_len();
    let mut r: Vec<char> = Vec::new();
    let mut i: usize = 0;
    while i < n
        invariant
            i <= n,
            n == s@.len(),
            r@ == s@.take(i as int),
        decreases n - i,
    {
        r.push(s.get_char(i));
        proof {
            assert(r@ =~= s@.take(i + 1));
        }
        i = i + 1;
    }
    proof {
        assert(s@.take(n as int) =~= s@);
    }
    r
}

/// Relies on `String as FromIterator<&char>`: the collected string holds
/// exactly the given characters, in order.
#[verifier::external_body]
fn chars_to_string(v: &Vec<char>) -> (r: String)
    ensures
        r@ == v@,
{
    v.iter().collect()
}

/// The translation loop over the pattern's characters.
fn compile_chars(p: &Vec<char>) -> (r: Vec<char>)
    ensures
        r@ == glob_regex(p@),
{
    let mut out: Vec<char> = Vec::new();
    out.push('^');
    let mut i: usize = 0;
    proof {
        assert(p@.skip(0) =~= p@);
        assert(out@ =~= seq!['^']);
    }
    while i < p.len()
        invariant
            i <= p@.len(),
            out@ + glob_body(p@.skip(i as int)) == seq!['^'] + glob_body(p@),
        decreases p@.len() - i,
    {
        let ghost rest = p@.skip(i as int);
        proof {
            assert(rest[0] == p@[i as int]);
            assert(rest.skip(1) =~= p@.skip(i + 1));
            if rest.len() >= 2 {
                assert(rest[1] == p@[i + 1]);
                assert(rest.skip(2) =~= p@.skip(i + 2));
            }
        }
        let c = p[i];
        if c == '*' && i + 1 < p.len() && p[i + 1] == '*' {
            out.push('.');
            out.push('*');
            i = i + 2;
        } else if c == '*' {
            out.push('[');
            out.push('^');
            out.push('/');
            out.push(']');
            out.push('*');
            i = i + 1;
        } else if c == '?' {
            out.push('[');
            out.push('^');
            out.push('/');
            out.push(']');
            i = i + 1;
        } else if c == '.' || c == '^' || c == '$' || c == '(' || c == ')' || c == '|'
            || c == '+' || c == '\\' || c == '/' {
            out.push('\\');
            out.push(c);
            i = i + 1;
        } else if c == '{' {
            out.push('(');
            out.push('?');
            out.push(':');
            i = i + 1;
        } else if c == '}' {
            out.push(')');
            i = i + 1;
        } else if c == ',' {
            out.push('|');
            i = i + 1;
        } else {
            out.push(c);
            i = i + 1;
        }
    }
    proof {
        assert(p@.skip(p@.len() as int) =~= Seq::<char>::empty());
        assert(out@ =~= seq!['^'] + glob_body(p@));
    }
    out.push('$');
    proof {
        assert(out@ =~= glob_regex(p@));
    }
    out
}

/// Translates a wildcard pattern into the text of an anchored regular
/// expression, following the rules of `glob_body` exactly.
pub fn wildcard_to_regex(wildcard: &str) -> (r: String)
    ensures
        r@ == glob_regex(wildcard@),
{
    let chars = str_chars(wildcard);
    let rx = compile_chars(&chars);
    chars_to_string(&rx)
}

/// Whether `regex::Regex::new` accepts a regular-expression text: it is a
/// deterministic function of the text (and the crate's default size limit).
pub uninterp spec fn regex_ok(pattern: Seq<char>) -> bool;

/// Whether a compiled regular expression finds a match in a text: for a
/// given pattern it is a deterministic function of pattern and text.
pub uninterp spec fn regex_match(pattern: Seq<char>, text: Seq<char>) -> bool;

/// The compilation of a single wildcard pattern's regular expression. The
/// held `regex::Regex` is opaque to the verifier, so the struct is taken on
/// trust; `matcher_pattern` names the text it was compiled from.
#[verifier::external_body]
pub struct Matcher {
    re: regex::Regex,
}

/// The regular-expression text the held `regex::Regex` was compiled from.
pub uninterp spec fn matcher_pattern(m: Matcher) -> Seq<char>;

/// Relies on `regex::Regex::new`: it returns `Ok` exactly on the pattern
/// texts it accepts, and the compiled value is built from that text.
#[verifier::external_body]
fn new_matcher(pattern: &str) -> (r: Option<Matcher>)
    ensures
        r is Some <==> regex_ok(pattern@),
        r is Some ==> matcher_pattern(r->Some_0) == pattern@,
{
    match regex::Regex::new(pattern) {
        Ok(re) => Some(Matcher { re }),
        Err(_) => None,
    }
}

/// Relies on `regex::Regex::is_match`: whether the haystack contains a match
/// is decided by the compiled pattern and the haystack alone.
#[verifier::external_body]
fn re_is_match(m: &Matcher, text: &str) -> (r: bool)
    ensures
        r == regex_match(matcher_pattern(*m), text@),
{
    m.re.is_match(text)
}

/// A wildcard pattern that could not be compiled: its translated regular
/// expression was rejected (for example, a malformed `[...]` class, whose
/// contents pass through the translation unvalidated).
#[derive(Debug)]
pub struct PatternError {}

impl Matcher {
    /// The text of the regular expression this matcher runs.
    pub open spec fn regex_text(self) -> Seq<char> {
        matcher_pattern(self)
    }

    /// Compiles a wildcard pattern. Succeeds exactly when the translated
    /// regular expression is accepted by the regex engine, and the matcher
    /// then runs exactly that regular expression.
    pub fn compile(pattern: &str) -> (r: Result<Matcher, PatternError>)
        ensures
            r is Ok <==> regex_ok(glob_regex(pattern@)),
            r is Ok ==> (r->Ok_0).regex_text() == glob_regex(pattern@),
    {
        let rx = wildcard_to_regex(pattern);
        match new_matcher(rx.as_str()) {
            Some(m) => Ok(m),
            None => Err(PatternError {}),
        }
    }

    /// Whether the whole candidate satisfies the compiled pattern. Because
    /// the regular expression is anchored between `^` and `$`, a match of
    /// the anchored pattern is a match of the entire candidate.
    pub fn matches(&self, candidate: &str) -> (r: bool)
        ensures
            r == regex_match(self.regex_text(), candidate@),
    {
        re_is_match(self, candidate)
    }
}

} // verus!
