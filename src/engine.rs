//! The transformation engine: computes the normalized name of a file or
//! directory from its bare name and a rule set.
use vstd::prelude::*;
use crate::config::{sorted_order, term_ids, term_order, to_sep_ids, to_sep_order};
use crate::rules::Rules;
use crate::text::{
    append_all, chars_eq, chars_of, collapse, regex_compiles, remove_continuous, repeats_pattern, replace_all,
    replace_chars, slice_chars, string_of, strip_chars, strip_once, PatternError,
};

verus! {

/// Passes a substitution phase may make beyond one per character of the
/// name, so that rules which keep feeding one another cannot loop forever.
pub const MAX_PASSES: usize = 64;

/// A substitution phase stops once the name grows past this many characters.
pub const MAX_NAME_LEN: usize = 4096;

/// The passes allowed for a name: one per character (up to `MAX_NAME_LEN`),
/// plus `MAX_PASSES`.
pub open spec fn fuel_for(s: Seq<char>) -> nat {
    (if s.len() <= MAX_NAME_LEN { s.len() as int } else { MAX_NAME_LEN as int } + MAX_PASSES) as nat
}

pub open spec fn pairs_view(rules: Seq<(Vec<char>, Vec<char>)>) -> Seq<(Seq<char>, Seq<char>)> {
    rules.map_values(|p: (Vec<char>, Vec<char>)| (p.0@, p.1@))
}

/// Applies the first `k` rules in order, each to every occurrence.
pub open spec fn pass_upto(s: Seq<char>, rules: Seq<(Seq<char>, Seq<char>)>, k: int) -> Seq<char>
    decreases k,
{
    if k <= 0 {
        s
    } else {
        let t = pass_upto(s, rules, k - 1);
        replace_all(t, rules[k - 1].0, rules[k - 1].1)
    }
}

/// One full pass of every rule over `s`.
pub open spec fn pass(s: Seq<char>, rules: Seq<(Seq<char>, Seq<char>)>) -> Seq<char> {
    pass_upto(s, rules, rules.len() as int)
}

/// Repeats full passes until one changes nothing, the name grows past
/// `MAX_NAME_LEN`, or `fuel` passes are spent.
pub open spec fn fix(s: Seq<char>, rules: Seq<(Seq<char>, Seq<char>)>, fuel: nat) -> Seq<char>
    decreases fuel,
{
    if fuel == 0 || s.len() > MAX_NAME_LEN || pass(s, rules) == s {
        s
    } else {
        fix(pass(s, rules), rules, (fuel - 1) as nat)
    }
}

/// How many changing passes `fix` makes.
pub open spec fn passes_used(s: Seq<char>, rules: Seq<(Seq<char>, Seq<char>)>, fuel: nat) -> nat
    decreases fuel,
{
    if fuel == 0 || s.len() > MAX_NAME_LEN || pass(s, rules) == s {
        0
    } else {
        1 + passes_used(pass(s, rules), rules, (fuel - 1) as nat)
    }
}

/// A phase run with the fuel its input allows.
pub open spec fn phase(s: Seq<char>, rules: Seq<(Seq<char>, Seq<char>)>) -> Seq<char> {
    fix(s, rules, fuel_for(s))
}

/// Separator words, then terms, each substituted to a fixed point.
pub open spec fn substituted(stem: Seq<char>, rules: Rules) -> Seq<char> {
    phase(phase(stem, rules.to_sep_pairs()), rules.term_pairs())
}

/// The stem pipeline: substitution, then collapse of separator repeats and
/// one strip at each end.
pub open spec fn transform_stem(stem: Seq<char>, rules: Rules) -> Seq<char> {
    let sep = rules.separator_spec();
    strip_once(collapse(substituted(stem, rules), sep), sep)
}

/// Position of the last `.` in `s` before `k`, or -1.
pub open spec fn last_dot(s: Seq<char>, k: int) -> int
    decreases k,
{
    if k <= 0 {
        -1
    } else if s[k - 1] == '.' {
        k - 1
    } else {
        last_dot(s, k - 1)
    }
}

/// A file name has an extension when a `.` stands after its first character
/// (`.bashrc` has none) and the name is not `..`.
pub open spec fn has_ext(name: Seq<char>) -> bool {
    last_dot(name, name.len() as int) > 0 && name != seq!['.', '.']
}

pub open spec fn stem_of(name: Seq<char>) -> Seq<char> {
    if has_ext(name) {
        name.subrange(0, last_dot(name, name.len() as int))
    } else {
        name
    }
}

pub open spec fn ext_of(name: Seq<char>) -> Seq<char> {
    if has_ext(name) {
        name.subrange(last_dot(name, name.len() as int) + 1, name.len() as int)
    } else {
        Seq::empty()
    }
}

/// The normalized name: files keep their extension, directories are
/// transformed whole.
pub open spec fn target_name_spec(base: Seq<char>, is_file: bool, rules: Rules) -> Seq<char> {
    if is_file && has_ext(base) {
        transform_stem(stem_of(base), rules) + seq!['.'] + ext_of(base)
    } else {
        transform_stem(base, rules)
    }
}

proof fn lemma_fix_fuel(s: Seq<char>, rules: Seq<(Seq<char>, Seq<char>)>, fuel: nat)
    ensures
        passes_used(s, rules, fuel) <= fuel,
        passes_used(s, rules, fuel) < fuel ==> (pass(fix(s, rules, fuel), rules) == fix(
            s,
            rules,
            fuel,
        ) || fix(s, rules, fuel).len() > MAX_NAME_LEN),
    decreases fuel,
{
    if fuel > 0 && s.len() <= MAX_NAME_LEN && pass(s, rules) != s {
        lemma_fix_fuel(pass(s, rules), rules, (fuel - 1) as nat);
    }
}

/// A substitution phase always stops: it makes at most `fuel_for(s)` changing
/// passes, and when it makes fewer, its result is a fixed point of the rules
/// or longer than `MAX_NAME_LEN`.
pub proof fn lemma_substitution_terminates(s: Seq<char>, rules: Seq<(Seq<char>, Seq<char>)>)
    ensures
        passes_used(s, rules, fuel_for(s)) <= fuel_for(s),
        passes_used(s, rules, fuel_for(s)) < fuel_for(s) ==> (pass(phase(s, rules), rules)
            == phase(s, rules) || phase(s, rules).len() > MAX_NAME_LEN),
{
    lemma_fix_fuel(s, rules, fuel_for(s));
}

/// Running a substitution phase again on its own result changes nothing,
/// whenever the first run reached a fixed point.
pub proof fn lemma_substitution_idempotent(s: Seq<char>, rules: Seq<(Seq<char>, Seq<char>)>)
    requires
        pass(phase(s, rules), rules) == phase(s, rules),
    ensures
        phase(phase(s, rules), rules) == phase(s, rules),
{
}

proof fn lemma_last_dot(s: Seq<char>, k: int)
    requires
        0 <= k <= s.len(),
    ensures
        -1 <= last_dot(s, k) < k,
        last_dot(s, k) >= 0 ==> s[last_dot(s, k)] == '.',
        forall|m: int| last_dot(s, k) < m < k ==> s[m] != '.',
    decreases k,
{
    if k > 0 {
        lemma_last_dot(s, k - 1);
    }
}

fn last_dot_exec(s: &Vec<char>) -> (r: Option<usize>)
    ensures
        match r {
            Some(d) => d as int == last_dot(s@, s@.len() as int),
            None => last_dot(s@, s@.len() as int) == -1,
        },
{
    let mut k: usize = s.len();
    while k > 0
        invariant
            k <= s@.len(),
            last_dot(s@, s@.len() as int) == last_dot(s@, k as int),
        decreases k,
    {
        if s[k - 1] == '.' {
            return Some(k - 1);
        }
        k = k - 1;
    }
    None
}

fn is_dot_dot(s: &Vec<char>) -> (r: bool)
    ensures
        r == (s@ == seq!['.', '.']),
{
    if s.len() == 2 && s[0] == '.' && s[1] == '.' {
        assert(s@ =~= seq!['.', '.']);
        true
    } else {
        false
    }
}

/// Splits a bare name into stem and extension (empty when there is none).
pub fn split_name(name: &Vec<char>) -> (r: (Vec<char>, Vec<char>, bool))
    ensures
        r.2 == has_ext(name@),
        r.0@ == stem_of(name@),
        r.1@ == ext_of(name@),
{
    proof {
        lemma_last_dot(name@, name@.len() as int);
    }
    match last_dot_exec(name) {
        Some(d) => {
            let n = name.len();
            assert(d < n);
            if d > 0 && !is_dot_dot(name) {
                (slice_chars(name, 0, d), slice_chars(name, d + 1, n), true)
            } else {
                (slice_chars(name, 0, name.len()), Vec::new(), false)
            }
        },
        None => (slice_chars(name, 0, name.len()), Vec::new(), false),
    }
}

/// One full pass: every rule, in order, replaces all of its occurrences.
pub fn substitute_pass(s: &Vec<char>, rules: &Vec<(Vec<char>, Vec<char>)>) -> (r: Vec<char>)
    ensures
        r@ == pass(s@, pairs_view(rules@)),
{
    let ghost rv = pairs_view(rules@);
    let mut cur = slice_chars(s, 0, s.len());
    assert(cur@ =~= s@);
    let mut k: usize = 0;
    while k < rules.len()
        invariant
            k <= rules@.len(),
            rv == pairs_view(rules@),
            cur@ == pass_upto(s@, rv, k as int),
        decreases rules@.len() - k,
    {
        cur = replace_chars(&cur, &rules[k].0, &rules[k].1);
        k = k + 1;
    }
    cur
}

/// Repeats full passes until one changes nothing, the name grows past
/// `MAX_NAME_LEN`, or the passes that `fuel_for` allows are spent.
pub fn substitute_to_fixed_point(s: &Vec<char>, rules: &Vec<(Vec<char>, Vec<char>)>) -> (r: Vec<
    char,
>)
    ensures
        r@ == phase(s@, pairs_view(rules@)),
{
    let ghost rv = pairs_view(rules@);
    let mut cur = slice_chars(s, 0, s.len());
    assert(cur@ =~= s@);
    let mut fuel: usize = if s.len() <= MAX_NAME_LEN { s.len() } else { MAX_NAME_LEN };
    fuel = fuel + MAX_PASSES;
    loop
        invariant
            rv == pairs_view(rules@),
            fix(cur@, rv, fuel as nat) == phase(s@, rv),
        decreases fuel,
    {
        if fuel == 0 || cur.len() > MAX_NAME_LEN {
            return cur;
        }
        let next = substitute_pass(&cur, rules);
        if chars_eq(&next, &cur) {
            return cur;
        }
        cur = next;
        fuel = fuel - 1;
    }
}

fn to_sep_rules(rules: &Rules, sep: &Vec<char>) -> (r: Vec<(Vec<char>, Vec<char>)>)
    requires
        sep@ == rules.separator_spec(),
    ensures
        pairs_view(r@) == rules.to_sep_pairs(),
{
    let order = to_sep_order(&rules.to_sep_words);
    let mut r: Vec<(Vec<char>, Vec<char>)> = Vec::new();
    let mut k: usize = 0;
    while k < order.len()
        invariant
            k <= order@.len(),
            order@ == sorted_order(to_sep_ids(rules.to_sep_words@), rules.to_sep_words@.len() as int),
            forall|m: int| 0 <= m < order@.len() ==> #[trigger] order@[m] < rules.to_sep_words@.len(),
            sep@ == rules.separator_spec(),
            pairs_view(r@) =~= rules.to_sep_pairs().subrange(0, k as int),
        decreases order@.len() - k,
    {
        let w = chars_of(rules.to_sep_words[order[k]].value.as_str());
        let t = slice_chars(sep, 0, sep.len());
        assert(t@ =~= sep@);
        let ghost before = r@;
        r.push((w, t));
        assert(pairs_view(r@) =~= pairs_view(before).push((w@, t@)));
        assert(rules.to_sep_pairs().subrange(0, k + 1) =~= rules.to_sep_pairs().subrange(
            0,
            k as int,
        ).push((w@, t@)));
        k = k + 1;
    }
    assert(pairs_view(r@) =~= rules.to_sep_pairs());
    r
}

fn term_rules(rules: &Rules) -> (r: Vec<(Vec<char>, Vec<char>)>)
    ensures
        pairs_view(r@) == rules.term_pairs(),
{
    let order = term_order(&rules.term_words);
    let mut r: Vec<(Vec<char>, Vec<char>)> = Vec::new();
    let mut k: usize = 0;
    while k < order.len()
        invariant
            k <= order@.len(),
            order@ == sorted_order(term_ids(rules.term_words@), rules.term_words@.len() as int),
            forall|m: int| 0 <= m < order@.len() ==> #[trigger] order@[m] < rules.term_words@.len(),
            pairs_view(r@) =~= rules.term_pairs().subrange(0, k as int),
        decreases order@.len() - k,
    {
        let key = chars_of(rules.term_words[order[k]].key.as_str());
        let value = chars_of(rules.term_words[order[k]].value.as_str());
        let ghost before = r@;
        r.push((key, value));
        assert(pairs_view(r@) =~= pairs_view(before).push((key@, value@)));
        assert(rules.term_pairs().subrange(0, k + 1) =~= rules.term_pairs().subrange(
            0,
            k as int,
        ).push((key@, value@)));
        k = k + 1;
    }
    assert(pairs_view(r@) =~= rules.term_pairs());
    r
}

/// Substitutes separator words, then terms, each to a fixed point.
pub fn substitute_stem(stem: &str, rules: &Rules) -> (r: String)
    ensures
        r@ == substituted(stem@, *rules),
{
    let sep = chars_of(rules.active_separator().as_str());
    let a = substitute_to_fixed_point(&chars_of(stem), &to_sep_rules(rules, &sep));
    string_of(&substitute_to_fixed_point(&a, &term_rules(rules)))
}

/// The normalized name once separator repeats are collapsed in the stem:
/// one separator stripped at each end of `collapsed`, and the extension of
/// `base` put back for a file that has one.
pub open spec fn finished(collapsed: Seq<char>, sep: Seq<char>, base: Seq<char>, is_file: bool) -> Seq<
    char,
> {
    if is_file && has_ext(base) {
        strip_once(collapsed, sep) + seq!['.'] + ext_of(base)
    } else {
        strip_once(collapsed, sep)
    }
}

/// Finishes a name from its collapsed stem; see `finished`.
pub fn finish_name(collapsed: &str, sep: &str, base: &str, is_file: bool) -> (r: String)
    ensures
        r@ == finished(collapsed@, sep@, base@, is_file),
{
    let mut out = strip_chars(&chars_of(collapsed), &chars_of(sep));
    let (_, ext, has) = split_name(&chars_of(base));
    if is_file && has {
        out.push('.');
        append_all(&mut out, &ext);
    }
    string_of(&out)
}

/// The normalized name of the entry whose bare name is `base`; an error only
/// when the separator's repeats pattern cannot be compiled.
pub fn compute_target_name(base: &str, is_file: bool, rules: &Rules) -> (r: Result<String, PatternError>)
    ensures
        r is Ok <==> regex_compiles(repeats_pattern(rules.separator_spec())),
        r matches Ok(t) ==> t@ == target_name_spec(base@, is_file, *rules),
{
    let (stem, _, has) = split_name(&chars_of(base));
    let part = if is_file && has { string_of(&stem) } else { base.to_string() };
    let sep = rules.active_separator();
    let sub = substitute_stem(part.as_str(), rules);
    let collapsed = remove_continuous(sub.as_str(), sep.as_str())?;
    Ok(finish_name(collapsed.as_str(), sep.as_str(), base, is_file))
}

/// The new bare name of an entry: an explicit target is used verbatim,
/// otherwise the normalized name.
pub fn fdn_target(base: &str, is_file: bool, rules: &Rules, target: Option<String>) -> (r: Result<
    String,
    PatternError,
>)
    ensures
        target matches Some(t) ==> r == Ok::<String, PatternError>(t),
        target is None ==> (r is Ok <==> regex_compiles(repeats_pattern(rules.separator_spec()))),
        target is None ==> (r matches Ok(t) ==> t@ == target_name_spec(base@, is_file, *rules)),
{
    match target {
        Some(t) => Ok(t),
        None => compute_target_name(base, is_file, rules),
    }
}

} // verus!
