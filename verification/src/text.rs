//! Plain-text helpers: the quote stripping applied to string literals, the
//! escape handling for embedded newlines, and conversions between strings
//! and character vectors.

use vstd::prelude::*;

verus! {

use vstd::string::StrSliceExecFns;

/// What the quote-rewriting pass returns on an arbitrary string; named
/// because its general behaviour has no short statement.
pub uninterp spec fn quote_stripped(s: Seq<char>) -> Seq<char>;

/// A string literal token as the lexer produces it on a single line: at
/// least the two delimiting quotes, and no raw newline between them.
pub open spec fn plainly_quoted(s: Seq<char>) -> bool {
    s.len() >= 2 && s[0] == '"' && s[s.len() - 1] == '"' && !s.contains('\n')
}

/// The text that quote stripping leaves: for a single-line quoted string
/// the run between the outer quotes, otherwise whatever the rewriting
/// pass returns.
pub open spec fn stripped_of(s: Seq<char>) -> Seq<char> {
    if plainly_quoted(s) {
        s.subrange(1, s.len() - 1)
    } else {
        quote_stripped(s)
    }
}

/// Relies on `regex::Regex::new` and `regex::Regex::replace_all`: every
/// match of a quote, a greedy run of non-newline characters, and a quote
/// is rewritten to the run between the quotes. On a string without raw
/// newlines whose first and last characters are quotes, the single greedy
/// match spans the whole string, so the result is the string with its
/// first and last characters removed.
#[verifier::external_body]
pub fn strip_quotes(s: &str) -> (r: String)
    ensures
        r@ == quote_stripped(s@),
        plainly_quoted(s@) ==> r@ == s@.subrange(1, s@.len() - 1),
{
    let re = regex::Regex::new("(\")(.*)(\")").unwrap();
    re.replace_all(s, "$2").to_string()
}

/// Relies on `String::push`: appends exactly one character.
#[verifier::external_body]
pub fn push_char(s: &mut String, c: char)
    ensures
        final(s)@ == old(s)@.push(c),
{
    s.push(c);
}

/// The text with every backslash-n pair replaced by a newline, scanning
/// left to right without overlap.
pub open spec fn unescaped(s: Seq<char>) -> Seq<char>
    decreases s.len(),
{
    if s.len() == 0 {
        Seq::empty()
    } else if s.len() >= 2 && s[0] == '\\' && s[1] == 'n' {
        seq!['\n'] + unescaped(s.subrange(2, s.len() as int))
    } else {
        seq![s[0]] + unescaped(s.subrange(1, s.len() as int))
    }
}

/// Rewrites every literal backslash-n pair to a newline character.
pub fn unescape(s: &str) -> (r: String)
    ensures
        r@ == unescaped(s@),
{
    let n = s.unicode_len();
    let mut out = String::new();
    let mut i: usize = 0;
    proof {
        assert(s@.subrange(0, n as int) =~= s@);
        assert(out@ + unescaped(s@) =~= unescaped(s@));
    }
    while i < n
        invariant
            i <= n,
            n == s@.len(),
            unescaped(s@) == out@ + unescaped(s@.subrange(i as int, n as int)),
        decreases n - i,
    {
        let ghost rest = s@.subrange(i as int, n as int);
        let c = s.get_char(i);
        proof {
            assert(rest[0] == c);
            if i + 1 < n {
                assert(rest[1] == s@[i + 1]);
            }
        }
        let escape = c == '\\' && i + 1 < n && s.get_char(i + 1) == 'n';
        let ghost prev = out@;
        if escape {
            push_char(&mut out, '\n');
            proof {
                assert(rest.subrange(2, rest.len() as int) =~= s@.subrange(i + 2, n as int));
                assert(unescaped(rest) == seq!['\n'] + unescaped(s@.subrange(i + 2, n as int)));
                assert(prev + unescaped(rest) =~= out@ + unescaped(s@.subrange(i + 2, n as int)));
            }
            i = i + 2;
        } else {
            push_char(&mut out, c);
            proof {
                assert(!(rest.len() >= 2 && rest[0] == '\\' && rest[1] == 'n'));
                assert(rest.subrange(1, rest.len() as int) =~= s@.subrange(i + 1, n as int));
                assert(unescaped(rest) == seq![c] + unescaped(s@.subrange(i + 1, n as int)));
                assert(prev + unescaped(rest) =~= out@ + unescaped(s@.subrange(i + 1, n as int)));
            }
            i = i + 1;
        }
    }
    proof {
        assert(s@.subrange(n as int, n as int) =~= Seq::<char>::empty());
        assert(out@ + Seq::<char>::empty() =~= out@);
    }
    out
}

/// The characters of a string, as a vector.
pub fn chars_of(s: &str) -> (v: Vec<char>)
    ensures
        v@ == s@,
{
    let n = s.unicode_len();
    let mut v: Vec<char> = Vec::new();
    let mut i: usize = 0;
    while i < n
        invariant
            i <= n,
            n == s@.len(),
            v@ == s@.subrange(0, i as int),
        decreases n - i,
    {
        v.push(s.get_char(i));
        proof {
            assert(v@ =~= s@.subrange(0, i + 1));
        }
        i = i + 1;
    }
    proof {
        assert(s@.subrange(0, n as int) =~= s@);
    }
    v
}

/// A string holding exactly the given characters.
pub fn string_of_chars(v: &Vec<char>) -> (s: String)
    ensures
        s@ == v@,
{
    let mut s = String::new();
    let mut i: usize = 0;
    while i < v.len()
        invariant
            i <= v.len(),
            s@ == v@.subrange(0, i as int),
        decreases v.len() - i,
    {
        push_char(&mut s, v[i]);
        proof {
            assert(s@ =~= v@.subrange(0, i + 1));
        }
        i = i + 1;
    }
    proof {
        assert(v@.subrange(0, v@.len() as int) =~= v@);
    }
    s
}

} // verus!
