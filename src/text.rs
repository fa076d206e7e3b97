//! Character-sequence primitives: literal replacement, separator collapse and
//! single-occurrence stripping, each with a mathematical definition.
use vstd::prelude::*;

verus! {

/// `p` occurs literally in `s` at position `i`.
pub open spec fn occurs_at(s: Seq<char>, p: Seq<char>, i: int) -> bool {
    0 <= i && i + p.len() <= s.len() && s.subrange(i, i + p.len()) == p
}

/// Leftmost, non-overlapping replacement of every occurrence of `p` by `r`,
/// scanning from position `i`. An empty pattern never matches.
pub open spec fn replace_from(s: Seq<char>, p: Seq<char>, r: Seq<char>, i: int) -> Seq<char>
    decreases s.len() - i,
{
    if i >= s.len() || i < 0 {
        Seq::empty()
    } else if p.len() > 0 && occurs_at(s, p, i) {
        r + replace_from(s, p, r, i + p.len())
    } else {
        seq![s[i]] + replace_from(s, p, r, i + 1)
    }
}

pub open spec fn replace_all(s: Seq<char>, p: Seq<char>, r: Seq<char>) -> Seq<char> {
    replace_from(s, p, r, 0)
}

/// Removes one leading and then one trailing occurrence of `p`, if present.
pub open spec fn strip_once(s: Seq<char>, p: Seq<char>) -> Seq<char> {
    let t = if p.len() <= s.len() && s.subrange(0, p.len() as int) == p {
        s.subrange(p.len() as int, s.len() as int)
    } else {
        s
    };
    if p.len() <= t.len() && t.subrange(t.len() - p.len(), t.len() as int) == p {
        t.subrange(0, t.len() - p.len())
    } else {
        t
    }
}

/// Relies on String::push: appends one character.
#[verifier::external_body]
fn push_char(s: &mut String, c: char)
    ensures
        final(s)@ == old(s)@.push(c),
{
    s.push(c)
}

/// The characters of `s`, in order.
pub fn chars_of(s: &str) -> (r: Vec<char>)
    ensures
        r@ == s@,
{
    let n = s.unicode_len();
    let mut r: Vec<char> = Vec::new();
    let mut i: usize = 0;
    while i < n
        invariant
            n == s@.len(),
            i <= n,
            r@ == s@.subrange(0, i as int),
        decreases n - i,
    {
        r.push(s.get_char(i));
        i = i + 1;
    }
    assert(r@ =~= s@);
    r
}

/// The string made of the characters of `v`.
pub fn string_of(v: &Vec<char>) -> (r: String)
    ensures
        r@ == v@,
{
    let mut r = String::new();
    let mut i: usize = 0;
    while i < v.len()
        invariant
            i <= v.len(),
            r@ == v@.subrange(0, i as int),
        decreases v.len() - i,
    {
        push_char(&mut r, v[i]);
        assert(v@.subrange(0, i + 1) =~= v@.subrange(0, i as int).push(v@[i as int]));
        i = i + 1;
    }
    assert(r@ =~= v@);
    r
}

/// Appends the characters of `p`.
pub fn append_all(out: &mut Vec<char>, p: &Vec<char>)
    ensures
        final(out)@ == old(out)@ + p@,
{
    let mut i: usize = 0;
    while i < p.len()
        invariant
            i <= p.len(),
            out@ == old(out)@ + p@.subrange(0, i as int),
        decreases p.len() - i,
    {
        out.push(p[i]);
        assert(p@.subrange(0, i + 1) =~= p@.subrange(0, i as int).push(p@[i as int]));
        i = i + 1;
    }
    assert(p@.subrange(0, p.len() as int) =~= p@);
}

fn occurs_at_exec(s: &Vec<char>, p: &Vec<char>, i: usize) -> (r: bool)
    ensures
        r == occurs_at(s@, p@, i as int),
{
    if p.len() > s.len() || i > s.len() - p.len() {
        return false;
    }
    let mut k: usize = 0;
    while k < p.len()
        invariant
            i + p.len() <= s.len(),
            k <= p.len(),
            forall|m: int| 0 <= m < k ==> s@[i + m] == p@[m],
        decreases p.len() - k,
    {
        if s[i + k] != p[k] {
            assert(s@.subrange(i as int, i + p.len())[k as int] != p@[k as int]);
            return false;
        }
        k = k + 1;
    }
    assert(s@.subrange(i as int, i + p.len()) =~= p@);
    true
}

/// A copy of `s[from..to]`.
pub fn slice_chars(s: &Vec<char>, from: usize, to: usize) -> (r: Vec<char>)
    requires
        from <= to <= s@.len(),
    ensures
        r@ == s@.subrange(from as int, to as int),
{
    let mut r: Vec<char> = Vec::new();
    let mut i: usize = from;
    while i < to
        invariant
            from <= i <= to,
            to <= s@.len(),
            r@ == s@.subrange(from as int, i as int),
        decreases to - i,
    {
        r.push(s[i]);
        assert(s@.subrange(from as int, i + 1) =~= s@.subrange(from as int, i as int).push(
            s@[i as int],
        ));
        i = i + 1;
    }
    r
}

/// Whether two character vectors are equal.
pub fn chars_eq(a: &Vec<char>, b: &Vec<char>) -> (r: bool)
    ensures
        r == (a@ == b@),
{
    if a.len() != b.len() {
        return false;
    }
    let mut i: usize = 0;
    while i < a.len()
        invariant
            a.len() == b.len(),
            i <= a.len(),
            forall|m: int| 0 <= m < i ==> a@[m] == b@[m],
        decreases a.len() - i,
    {
        if a[i] != b[i] {
            return false;
        }
        i = i + 1;
    }
    assert(a@ =~= b@);
    true
}

/// Whether two strings hold the same characters.
pub fn text_eq(a: &str, b: &str) -> (r: bool)
    ensures
        r == (a@ == b@),
{
    chars_eq(&chars_of(a), &chars_of(b))
}

/// Appends the characters of `s`.
pub fn append_text(out: &mut Vec<char>, s: &str)
    ensures
        final(out)@ == old(out)@ + s@,
{
    let n = s.unicode_len();
    let mut i: usize = 0;
    while i < n
        invariant
            n == s@.len(),
            i <= n,
            out@ == old(out)@ + s@.subrange(0, i as int),
        decreases n - i,
    {
        out.push(s.get_char(i));
        assert(s@.subrange(0, i + 1) =~= s@.subrange(0, i as int).push(s@[i as int]));
        i = i + 1;
    }
    assert(s@.subrange(0, n as int) =~= s@);
}

/// Replaces every occurrence of `p` in `s` by `r`, leftmost first and without
/// overlap. An empty `p` leaves `s` unchanged.
pub fn replace_chars(s: &Vec<char>, p: &Vec<char>, r: &Vec<char>) -> (out: Vec<char>)
    ensures
        out@ == replace_all(s@, p@, r@),
{
    let mut out: Vec<char> = Vec::new();
    let mut i: usize = 0;
    while i < s.len()
        invariant
            i <= s.len(),
            out@ + replace_from(s@, p@, r@, i as int) == replace_all(s@, p@, r@),
        decreases s.len() - i,
    {
        if p.len() > 0 && occurs_at_exec(s, p, i) {
            let ghost before = out@;
            append_all(&mut out, r);
            assert(before + replace_from(s@, p@, r@, i as int) == before + (r@ + replace_from(
                s@,
                p@,
                r@,
                i + p.len(),
            )));
            assert(before + (r@ + replace_from(s@, p@, r@, i + p.len())) =~= out@ + replace_from(
                s@,
                p@,
                r@,
                i + p.len(),
            ));
            i = i + p.len();
        } else {
            let ghost before = out@;
            out.push(s[i]);
            assert(before + (seq![s@[i as int]] + replace_from(s@, p@, r@, i + 1)) =~= out@
                + replace_from(s@, p@, r@, i + 1));
            i = i + 1;
        }
    }
    assert(out@ + replace_from(s@, p@, r@, i as int) =~= out@);
    out
}

/// Removes one leading and one trailing occurrence of `p` from `s`.
pub fn strip_chars(s: &Vec<char>, p: &Vec<char>) -> (out: Vec<char>)
    ensures
        out@ == strip_once(s@, p@),
{
    let mut start: usize = 0;
    if occurs_at_exec(s, p, 0) {
        start = p.len();
    }
    let ghost t = s@.subrange(start as int, s@.len() as int);
    let mut end: usize = s.len();
    if s.len() - start >= p.len() && occurs_at_exec(s, p, s.len() - p.len()) {
        end = s.len() - p.len();
        assert(t.subrange(t.len() - p@.len(), t.len() as int) =~= s@.subrange(
            s.len() - p.len(),
            s.len() as int,
        ));
    } else if s.len() - start >= p.len() {
        assert(t.subrange(t.len() - p@.len(), t.len() as int) =~= s@.subrange(
            s.len() - p.len(),
            s.len() as int,
        ));
    }
    let mut out: Vec<char> = Vec::new();
    let mut i: usize = start;
    while i < end
        invariant
            start <= i <= end,
            end <= s.len(),
            out@ == s@.subrange(start as int, i as int),
        decreases end - i,
    {
        out.push(s[i]);
        assert(s@.subrange(start as int, i + 1) =~= s@.subrange(start as int, i as int).push(
            s@[i as int],
        ));
        i = i + 1;
    }
    assert(out@ =~= strip_once(s@, p@));
    out
}

#[verifier::external_type_specification]
#[verifier::external_body]
pub struct ExRegexError(regex::Error);

/// What the regex crate yields when it replaces every match of `pattern` in
/// `source` by the literal `rep`.
pub uninterp spec fn regex_replaced(pattern: Seq<char>, source: Seq<char>, rep: Seq<char>) -> Seq<
    char,
>;

/// Whether a pattern compiles under `regex::Regex::new`.
pub uninterp spec fn regex_compiles(pattern: Seq<char>) -> bool;

/// The characters that have a meaning of their own in a pattern.
pub open spec fn is_meta(c: char) -> bool {
    c == '\\' || c == '.' || c == '+' || c == '*' || c == '?' || c == '(' || c == ')' || c == '|'
        || c == '[' || c == ']' || c == '{' || c == '}' || c == '^' || c == '$' || c == '#' || c
        == '&' || c == '-' || c == '~'
}

/// `word` with a backslash before every metacharacter.
pub open spec fn regex_escaped(word: Seq<char>) -> Seq<char>
    decreases word.len(),
{
    if word.len() == 0 {
        Seq::empty()
    } else {
        regex_escaped(word.drop_last()) + if is_meta(word.last()) {
            seq!['\\', word.last()]
        } else {
            seq![word.last()]
        }
    }
}

/// Relies on regex::escape: a backslash before each metacharacter of `word`.
#[verifier::external_body]
fn escape_word(word: &str) -> (r: String)
    ensures
        r@ == regex_escaped(word@),
{
    regex::escape(word)
}

/// Relies on regex::Regex::new and Regex::replace_all with NoExpand: every
/// non-overlapping match of `pattern`, leftmost first, replaced by `rep`
/// taken literally; an error exactly when `pattern` does not compile.
#[verifier::external_body]
fn replace_matches(pattern: &str, source: &str, rep: &str) -> (r: Result<String, regex::Error>)
    ensures
        r is Ok <==> regex_compiles(pattern@),
        r matches Ok(s) ==> s@ == regex_replaced(pattern@, source@, rep@),
{
    let re = regex::Regex::new(pattern)?;
    Ok(re.replace_all(source, regex::NoExpand(rep)).into_owned())
}

/// The pattern of two or more consecutive repeats of `word`, ignoring case.
pub open spec fn repeats_pattern(word: Seq<char>) -> Seq<char> {
    "(?i)(?:"@ + regex_escaped(word) + "){2,}"@
}

/// Two or more consecutive repeats of `word`, ignoring case, in `source`
/// replaced by one `word`.
pub open spec fn collapse(source: Seq<char>, word: Seq<char>) -> Seq<char> {
    regex_replaced(repeats_pattern(word), source, word)
}

/// The repeats pattern of a separator could not be compiled.
#[derive(Debug, PartialEq, Eq, Structural)]
pub enum PatternError {
    Invalid,
}

/// Turns every run of two or more consecutive repeats of `word` in `source`,
/// ignoring case, into one `word`.
pub fn remove_continuous(source: &str, word: &str) -> (r: Result<String, PatternError>)
    ensures
        r is Ok <==> regex_compiles(repeats_pattern(word@)),
        r matches Ok(s) ==> s@ == collapse(source@, word@),
{
    proof {
        reveal_strlit("(?i)(?:");
        reveal_strlit("){2,}");
    }
    let mut pattern = String::new();
    pattern.append("(?i)(?:");
    let escaped = escape_word(word);
    pattern.append(escaped.as_str());
    pattern.append("){2,}");
    match replace_matches(pattern.as_str(), source, word) {
        Ok(s) => Ok(s),
        Err(_) => Err(PatternError::Invalid),
    }
}

/// Removes one leading and one trailing `sep` from `s`.
pub fn remove_prefix_sep_suffix_sep(s: &str, sep: &str) -> (r: String)
    ensures
        r@ == strip_once(s@, sep@),
{
    string_of(&strip_chars(&chars_of(s), &chars_of(sep)))
}

} // verus!
