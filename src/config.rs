//! The configuration registry: adding, deleting and listing rule words.
use vstd::prelude::*;
use crate::rules::{Rules, Separator, TermWord, ToSepWord};
use crate::text::{
    append_all, append_text, chars_of, replace_all, replace_chars, slice_chars, string_of, text_eq,
};

verus! {

/// Position of the first `:` in `s`, if any.
pub open spec fn first_colon(s: Seq<char>, i: int) -> Option<int>
    decreases s.len() - i,
{
    if i < 0 || i >= s.len() {
        None
    } else if s[i] == ':' {
        Some(i)
    } else {
        first_colon(s, i + 1)
    }
}

/// A configuration word: `key:value` (split at the first `:`) names a term
/// substitution, anything else a word replaced by the separator.
pub enum ConfigWord {
    Term { key: String, value: String },
    ToSep { value: String },
}

pub open spec fn config_word_spec(w: ConfigWord, s: Seq<char>) -> bool {
    match w {
        ConfigWord::Term { key, value } => match first_colon(s, 0) {
            Some(i) => key@ == s.subrange(0, i) && value@ == s.subrange(i + 1, s.len() as int),
            None => false,
        },
        ConfigWord::ToSep { value } => first_colon(s, 0) is None && value@ == s,
    }
}

proof fn lemma_first_colon(s: Seq<char>, i: int)
    requires
        0 <= i <= s.len(),
    ensures
        match first_colon(s, i) {
            Some(j) => i <= j < s.len() && s[j] == ':',
            None => true,
        },
    decreases s.len() - i,
{
    if i < s.len() && s[i] != ':' {
        lemma_first_colon(s, i + 1);
    }
}

/// Reads a configuration word.
pub fn parse_config_word(word: &str) -> (r: ConfigWord)
    ensures
        config_word_spec(r, word@),
{
    let s = chars_of(word);
    let mut i: usize = 0;
    while i < s.len()
        invariant
            i <= s@.len(),
            s@ == word@,
            first_colon(s@, 0) == first_colon(s@, i as int),
        decreases s@.len() - i,
    {
        if s[i] == ':' {
            assert(first_colon(s@, i as int) == Some(i as int));
            let key = string_of(&slice_chars(&s, 0, i));
            let value = string_of(&slice_chars(&s, i + 1, s.len()));
            assert(first_colon(word@, 0) == Some(i as int));
            assert(key@ == word@.subrange(0, i as int));
            assert(value@ == word@.subrange(i + 1, word@.len() as int));
            return ConfigWord::Term { key, value };
        }
        i = i + 1;
    }
    assert(s@.subrange(0, s@.len() as int) =~= s@);
    ConfigWord::ToSep { value: string_of(&slice_chars(&s, 0, s.len())) }
}

/// Adds a configuration word under the id the store gave it: a term
/// substitution for `key:value`, a separator word otherwise.
pub fn config_add(rules: &mut Rules, id: i32, word: &str)
    ensures
        final(rules).separators@ == old(rules).separators@,
        match first_colon(word@, 0) {
            Some(i) => final(rules).to_sep_words@ == old(rules).to_sep_words@
                && final(rules).term_words@.len() == old(rules).term_words@.len() + 1
                && final(rules).term_words@.drop_last() == old(rules).term_words@
                && final(rules).term_words@.last().id == id
                && final(rules).term_words@.last().key@ == word@.subrange(0, i)
                && final(rules).term_words@.last().value@ == word@.subrange(i + 1, word@.len() as int),
            None => final(rules).term_words@ == old(rules).term_words@
                && final(rules).to_sep_words@.len() == old(rules).to_sep_words@.len() + 1
                && final(rules).to_sep_words@.drop_last() == old(rules).to_sep_words@
                && final(rules).to_sep_words@.last().id == id
                && final(rules).to_sep_words@.last().value@ == word@,
        },
{
    match parse_config_word(word) {
        ConfigWord::Term { key, value } => {
            rules.term_words.push(TermWord::new(id, key, value));
            assert(rules.term_words@.drop_last() =~= old(rules).term_words@);
        },
        ConfigWord::ToSep { value } => {
            rules.to_sep_words.push(ToSepWord::new(id, value));
            assert(rules.to_sep_words@.drop_last() =~= old(rules).to_sep_words@);
        },
    }
}

/// Index of the first term word with this key and value.
pub open spec fn first_term(ws: Seq<TermWord>, k: Seq<char>, v: Seq<char>, i: int) -> Option<int>
    decreases ws.len() - i,
{
    if i < 0 || i >= ws.len() {
        None
    } else if ws[i].key@ == k && ws[i].value@ == v {
        Some(i)
    } else {
        first_term(ws, k, v, i + 1)
    }
}

/// Index of the first separator word with this value.
pub open spec fn first_to_sep(ws: Seq<ToSepWord>, v: Seq<char>, i: int) -> Option<int>
    decreases ws.len() - i,
{
    if i < 0 || i >= ws.len() {
        None
    } else if ws[i].value@ == v {
        Some(i)
    } else {
        first_to_sep(ws, v, i + 1)
    }
}

/// Deletes the first word that matches `word` read as in `config_add`, and
/// returns its id; nothing changes when none matches.
pub fn config_delete(rules: &mut Rules, word: &str) -> (r: Option<i32>)
    ensures
        final(rules).separators@ == old(rules).separators@,
        match first_colon(word@, 0) {
            Some(c) => final(rules).to_sep_words@ == old(rules).to_sep_words@ && match first_term(
                old(rules).term_words@,
                word@.subrange(0, c),
                word@.subrange(c + 1, word@.len() as int),
                0,
            ) {
                Some(i) => r == Some(old(rules).term_words@[i].id) && final(rules).term_words@
                    == old(rules).term_words@.remove(i),
                None => r is None && final(rules).term_words@ == old(rules).term_words@,
            },
            None => final(rules).term_words@ == old(rules).term_words@ && match first_to_sep(
                old(rules).to_sep_words@,
                word@,
                0,
            ) {
                Some(i) => r == Some(old(rules).to_sep_words@[i].id) && final(rules).to_sep_words@
                    == old(rules).to_sep_words@.remove(i),
                None => r is None && final(rules).to_sep_words@ == old(rules).to_sep_words@,
            },
        },
{
    match parse_config_word(word) {
        ConfigWord::Term { key, value } => {
            let ghost c = first_colon(word@, 0)->0;
            let mut i: usize = 0;
            while i < rules.term_words.len()
                invariant
                    first_colon(word@, 0) == Some(c),
                    key@ == word@.subrange(0, c),
                    value@ == word@.subrange(c + 1, word@.len() as int),
                    i <= rules.term_words@.len(),
                    rules.term_words@ == old(rules).term_words@,
                    rules.to_sep_words@ == old(rules).to_sep_words@,
                    rules.separators@ == old(rules).separators@,
                    first_term(rules.term_words@, key@, value@, 0) == first_term(
                        rules.term_words@,
                        key@,
                        value@,
                        i as int,
                    ),
                decreases rules.term_words@.len() - i,
            {
                if text_eq(rules.term_words[i].key.as_str(), key.as_str()) && text_eq(
                    rules.term_words[i].value.as_str(),
                    value.as_str(),
                ) {
                    assert(first_term(rules.term_words@, key@, value@, i as int) == Some(i as int));
                    let w = rules.term_words.remove(i);
                    return Some(w.id);
                }
                i = i + 1;
            }
            None
        },
        ConfigWord::ToSep { value } => {
            let mut i: usize = 0;
            while i < rules.to_sep_words.len()
                invariant
                    first_colon(word@, 0) is None,
                    value@ == word@,
                    i <= rules.to_sep_words@.len(),
                    rules.term_words@ == old(rules).term_words@,
                    rules.to_sep_words@ == old(rules).to_sep_words@,
                    rules.separators@ == old(rules).separators@,
                    first_to_sep(rules.to_sep_words@, value@, 0) == first_to_sep(
                        rules.to_sep_words@,
                        value@,
                        i as int,
                    ),
                decreases rules.to_sep_words@.len() - i,
            {
                if text_eq(rules.to_sep_words[i].value.as_str(), value.as_str()) {
                    assert(first_to_sep(rules.to_sep_words@, value@, i as int) == Some(i as int));
                    let w = rules.to_sep_words.remove(i);
                    return Some(w.id);
                }
                i = i + 1;
            }
            None
        },
    }
}

/// The Unicode name of a character, where it has one.
pub uninterp spec fn unicode_name(c: char) -> Option<Seq<char>>;

/// Relies on unicode_names2::name: the Unicode name of `c`, if it has one.
#[verifier::external_body]
fn char_name(c: char) -> (r: Option<String>)
    ensures
        match r {
            Some(n) => unicode_name(c) == Some(n@),
            None => unicode_name(c) is None,
        },
{
    unicode_names2::name(c).map(|n| n.to_string())
}

/// The names of the characters of `s` that have one, in order.
pub open spec fn names_of(s: Seq<char>) -> Seq<Seq<char>>
    decreases s.len(),
{
    if s.len() == 0 {
        Seq::empty()
    } else {
        let rest = names_of(s.drop_last());
        match unicode_name(s.last()) {
            Some(n) => rest.push(n),
            None => rest,
        }
    }
}

/// `parts` joined with `,`.
pub open spec fn join_commas(parts: Seq<Seq<char>>) -> Seq<char>
    decreases parts.len(),
{
    if parts.len() == 0 {
        Seq::empty()
    } else if parts.len() == 1 {
        parts[0]
    } else {
        join_commas(parts.drop_last()) + seq![','] + parts.last()
    }
}

/// The Unicode names of the characters of `s`, separated by `,`.
pub fn unames(s: &str) -> (r: String)
    ensures
        r@ == join_commas(names_of(s@)),
{
    let cs = chars_of(s);
    let mut out: Vec<char> = Vec::new();
    let mut any = false;
    let mut i: usize = 0;
    while i < cs.len()
        invariant
            i <= cs@.len(),
            cs@ == s@,
            any == (names_of(cs@.subrange(0, i as int)).len() > 0),
            out@ == join_commas(names_of(cs@.subrange(0, i as int))),
        decreases cs@.len() - i,
    {
        let ghost pre = cs@.subrange(0, i as int);
        assert(cs@.subrange(0, i + 1).drop_last() =~= pre);
        match char_name(cs[i]) {
            Some(n) => {
                let ghost before = out@;
                if any {
                    out.push(',');
                }
                append_text(&mut out, n.as_str());
                assert(names_of(pre).push(n@).drop_last() =~= names_of(pre));
                if any {
                    assert(out@ =~= before + seq![','] + n@);
                } else {
                    assert(out@ =~= n@);
                }
                any = true;
            },
            None => {},
        }
        i = i + 1;
    }
    assert(cs@.subrange(0, cs@.len() as int) =~= s@);
    string_of(&out)
}

pub open spec fn digit(d: int) -> char {
    if d <= 0 { '0' } else if d == 1 { '1' } else if d == 2 { '2' } else if d == 3 { '3' }
    else if d == 4 { '4' } else if d == 5 { '5' } else if d == 6 { '6' } else if d == 7 { '7' }
    else if d == 8 { '8' } else { '9' }
}

/// Decimal digits of `n`.
pub open spec fn decimal_nat(n: nat) -> Seq<char>
    decreases n,
{
    if n < 10 {
        seq![digit(n as int)]
    } else {
        decimal_nat(n / 10) + seq![digit((n % 10) as int)]
    }
}

/// Decimal text of an integer, with `-` before a negative one.
pub open spec fn decimal(n: int) -> Seq<char> {
    if n < 0 {
        seq!['-'] + decimal_nat((-n) as nat)
    } else {
        decimal_nat(n as nat)
    }
}

fn digit_exec(d: u64) -> (r: char)
    requires
        d < 10,
    ensures
        r == digit(d as int),
{
    if d == 0 { '0' } else if d == 1 { '1' } else if d == 2 { '2' } else if d == 3 { '3' }
    else if d == 4 { '4' } else if d == 5 { '5' } else if d == 6 { '6' } else if d == 7 { '7' }
    else if d == 8 { '8' } else { '9' }
}

/// Decimal text of `n`.
pub fn decimal_text(n: i32) -> (r: Vec<char>)
    ensures
        r@ == decimal(n as int),
{
    let neg = n < 0;
    let a: u64 = if neg { (-(n as i64)) as u64 } else { n as u64 };
    let mut m: u64 = a;
    let mut suffix: Vec<char> = Vec::new();
    while m >= 10
        invariant
            decimal_nat(a as nat) == decimal_nat(m as nat) + suffix@,
        decreases m,
    {
        let d = m % 10;
        let c = digit_exec(d);
        suffix.insert(0, c);
        assert(decimal_nat(m as nat) == decimal_nat((m / 10) as nat) + seq![digit((m % 10) as int)]);
        assert(decimal_nat(a as nat) =~= decimal_nat((m / 10) as nat) + suffix@);
        m = m / 10;
    }
    let mut out: Vec<char> = Vec::new();
    if neg {
        out.push('-');
    }
    out.push(digit_exec(m));
    let mut i: usize = 0;
    let ghost head = out@;
    while i < suffix.len()
        invariant
            i <= suffix@.len(),
            out@ == head + suffix@.subrange(0, i as int),
        decreases suffix@.len() - i,
    {
        out.push(suffix[i]);
        assert(suffix@.subrange(0, i + 1) =~= suffix@.subrange(0, i as int).push(suffix@[i as int]));
        i = i + 1;
    }
    assert(suffix@.subrange(0, suffix@.len() as int) =~= suffix@);
    assert(out@ =~= decimal(n as int));
    out
}

/// Where a rule with id `x` goes among those already ordered: after every
/// one whose id is not larger, so that equal ids keep their order.
pub open spec fn insert_pos(order: Seq<usize>, ids: Seq<i32>, x: i32, p: int) -> int
    decreases order.len() - p,
{
    if p < 0 || p >= order.len() {
        order.len() as int
    } else if ids[order[p] as int] > x {
        p
    } else {
        insert_pos(order, ids, x, p + 1)
    }
}

/// The first `n` positions, ordered by id, equal ids in their stored order.
pub open spec fn sorted_order(ids: Seq<i32>, n: int) -> Seq<usize>
    decreases n,
{
    if n <= 0 {
        Seq::empty()
    } else {
        let o = sorted_order(ids, n - 1);
        o.insert(insert_pos(o, ids, ids[n - 1], 0), (n - 1) as usize)
    }
}

/// The positions of rules with ids `ids`, listed by increasing id; rules with
/// equal ids keep their stored order.
pub fn order_by_id(ids: &Vec<i32>) -> (r: Vec<usize>)
    ensures
        r@ == sorted_order(ids@, ids@.len() as int),
        r@.len() == ids@.len(),
        forall|m: int| 0 <= m < r@.len() ==> #[trigger] r@[m] < ids@.len(),
        forall|a: int, b: int|
            0 <= a < b < r@.len() ==> ids@[#[trigger] r@[a] as int] <= ids@[#[trigger] r@[b] as int],
{
    let mut out: Vec<usize> = Vec::new();
    let mut k: usize = 0;
    while k < ids.len()
        invariant
            k <= ids@.len(),
            out@ == sorted_order(ids@, k as int),
            out@.len() == k,
            forall|m: int| 0 <= m < out@.len() ==> #[trigger] out@[m] < k,
            forall|a: int, b: int|
                0 <= a < b < out@.len() ==> ids@[#[trigger] out@[a] as int] <= ids@[#[trigger] out@[b] as int],
        decreases ids@.len() - k,
    {
        let x = ids[k];
        let mut pos: usize = 0;
        while pos < out.len() && ids[out[pos]] <= x
            invariant
                pos <= out@.len(),
                x == ids@[k as int],
                k < ids@.len(),
                forall|m: int| 0 <= m < out@.len() ==> #[trigger] out@[m] < k,
                insert_pos(out@, ids@, x, 0) == insert_pos(out@, ids@, x, pos as int),
                forall|m: int| 0 <= m < pos ==> ids@[#[trigger] out@[m] as int] <= x,
            decreases out@.len() - pos,
        {
            pos = pos + 1;
        }
        let ghost old_out = out@;
        proof {
            if pos < old_out.len() {
                assert forall|m: int| pos <= m < old_out.len() implies ids@[#[trigger] old_out[m] as int] > x by {
                    if m > pos {
                        assert(ids@[old_out[pos as int] as int] <= ids@[old_out[m] as int]);
                    }
                }
            }
        }
        out.insert(pos, k);
        proof {
            let nv = out@;
            assert(nv == old_out.insert(pos as int, k));
            assert forall|a: int, b: int| 0 <= a < b < nv.len() implies ids@[#[trigger] nv[a] as int]
                <= ids@[#[trigger] nv[b] as int] by {
                if b < pos {
                    assert(nv[a] == old_out[a] && nv[b] == old_out[b]);
                } else if b == pos {
                    assert(nv[a] == old_out[a]);
                } else if a > pos {
                    assert(nv[a] == old_out[a - 1] && nv[b] == old_out[b - 1]);
                } else if a == pos {
                    assert(nv[b] == old_out[b - 1]);
                } else {
                    assert(nv[a] == old_out[a] && nv[b] == old_out[b - 1]);
                }
            }
            assert forall|m: int| 0 <= m < nv.len() implies #[trigger] nv[m] < k + 1 by {
                if m < pos {
                    assert(nv[m] == old_out[m]);
                } else if m > pos {
                    assert(nv[m] == old_out[m - 1]);
                }
            }
        }
        k = k + 1;
    }
    out
}

pub open spec fn spaces(n: nat) -> Seq<char> {
    Seq::new(n, |i: int| ' ')
}

/// Carriage returns and line feeds written as `\r` and `\n`.
pub open spec fn escaped(s: Seq<char>) -> Seq<char> {
    replace_all(replace_all(s, seq!['\r'], seq!['\\', 'r']), seq!['\n'], seq!['\\', 'n'])
}

/// One listing line: indent, id, then two tab-separated columns.
pub open spec fn row(indent: nat, id: i32, a: Seq<char>, b: Seq<char>) -> Seq<char> {
    spaces(indent) + seq![' '] + decimal(id as int) + seq!['\t'] + a + seq!['\t'] + b + seq!['\n']
}

pub open spec fn separator_rows(ws: Seq<Separator>, order: Seq<usize>, k: int) -> Seq<char>
    decreases k,
{
    if k <= 0 {
        Seq::empty()
    } else {
        let w = ws[order[k - 1] as int];
        separator_rows(ws, order, k - 1) + row(9, w.id, w.value@, join_commas(names_of(w.value@)))
    }
}

pub open spec fn to_sep_rows(ws: Seq<ToSepWord>, order: Seq<usize>, k: int) -> Seq<char>
    decreases k,
{
    if k <= 0 {
        Seq::empty()
    } else {
        let w = ws[order[k - 1] as int];
        to_sep_rows(ws, order, k - 1) + row(9, w.id, escaped(w.value@), join_commas(names_of(w.value@)))
    }
}

pub open spec fn term_rows(ws: Seq<TermWord>, order: Seq<usize>, k: int) -> Seq<char>
    decreases k,
{
    if k <= 0 {
        Seq::empty()
    } else {
        let w = ws[order[k - 1] as int];
        term_rows(ws, order, k - 1) + row(8, w.id, w.key@, escaped(w.value@))
    }
}

pub open spec fn separator_ids(ws: Seq<Separator>) -> Seq<i32> {
    ws.map_values(|w: Separator| w.id)
}

pub open spec fn to_sep_ids(ws: Seq<ToSepWord>) -> Seq<i32> {
    ws.map_values(|w: ToSepWord| w.id)
}

pub open spec fn term_ids(ws: Seq<TermWord>) -> Seq<i32> {
    ws.map_values(|w: TermWord| w.id)
}

/// The three rule tables as printed, each sorted by id.
pub open spec fn listing(rules: Rules) -> Seq<char> {
    let s = rules.separators@;
    let t = rules.to_sep_words@;
    let w = rules.term_words@;
    "Separator ID\tValue\tDescription\n"@ + separator_rows(
        s,
        sorted_order(separator_ids(s), s.len() as int),
        s.len() as int,
    ) + "ToSepWord ID\tValue\tDescription\n"@ + to_sep_rows(
        t,
        sorted_order(to_sep_ids(t), t.len() as int),
        t.len() as int,
    ) + "TermWord ID\tKey\tValue\n"@ + term_rows(
        w,
        sorted_order(term_ids(w), w.len() as int),
        w.len() as int,
    )
}

fn escape_exec(s: &str) -> (r: Vec<char>)
    ensures
        r@ == escaped(s@),
{
    let cr = vec!['\r'];
    let cr_text = vec!['\\', 'r'];
    let lf = vec!['\n'];
    let lf_text = vec!['\\', 'n'];
    assert(cr@ =~= seq!['\r'] && cr_text@ =~= seq!['\\', 'r']);
    assert(lf@ =~= seq!['\n'] && lf_text@ =~= seq!['\\', 'n']);
    let a = replace_chars(&chars_of(s), &cr, &cr_text);
    replace_chars(&a, &lf, &lf_text)
}

fn push_row(out: &mut Vec<char>, indent: usize, id: i32, a: &Vec<char>, b: &Vec<char>)
    ensures
        final(out)@ == old(out)@ + row(indent as nat, id, a@, b@),
{
    let mut i: usize = 0;
    while i < indent
        invariant
            i <= indent,
            out@ == old(out)@ + spaces(i as nat),
        decreases indent - i,
    {
        out.push(' ');
        assert(spaces((i + 1) as nat) =~= spaces(i as nat).push(' '));
        i = i + 1;
    }
    out.push(' ');
    append_all(out, &decimal_text(id));
    out.push('\t');
    append_all(out, a);
    out.push('\t');
    append_all(out, b);
    out.push('\n');
    assert(out@ =~= old(out)@ + row(indent as nat, id, a@, b@));
}

/// Lists the separators, the separator words and the term words, each table
/// sorted by id, with the Unicode names of separators and separator words.
pub fn config_list(rules: &Rules) -> (r: String)
    ensures
        r@ == listing(*rules),
{
    let mut out: Vec<char> = Vec::new();
    append_text(&mut out, "Separator ID\tValue\tDescription\n");
    let ghost s = rules.separators@;
    let mut ids: Vec<i32> = Vec::new();
    let mut k: usize = 0;
    while k < rules.separators.len()
        invariant
            k <= s.len(),
            s == rules.separators@,
            ids@ =~= separator_ids(s).subrange(0, k as int),
        decreases s.len() - k,
    {
        ids.push(rules.separators[k].id);
        k = k + 1;
    }
    assert(ids@ =~= separator_ids(s));
    let order = order_by_id(&ids);
    let ghost head = out@;
    let mut k: usize = 0;
    while k < order.len()
        invariant
            k <= order@.len(),
            s == rules.separators@,
            order@ == sorted_order(separator_ids(s), s.len() as int),
            order@.len() == s.len(),
            forall|m: int| 0 <= m < order@.len() ==> #[trigger] order@[m] < s.len(),
            out@ == head + separator_rows(s, order@, k as int),
        decreases order@.len() - k,
    {
        let w = &rules.separators[order[k]];
        let value = chars_of(w.value.as_str());
        let names = chars_of(unames(w.value.as_str()).as_str());
        push_row(&mut out, 9, w.id, &value, &names);
        k = k + 1;
    }
    append_text(&mut out, "ToSepWord ID\tValue\tDescription\n");
    let ghost t = rules.to_sep_words@;
    let order = to_sep_order(&rules.to_sep_words);
    let ghost head = out@;
    let mut k: usize = 0;
    while k < order.len()
        invariant
            k <= order@.len(),
            t == rules.to_sep_words@,
            order@ == sorted_order(to_sep_ids(t), t.len() as int),
            order@.len() == t.len(),
            forall|m: int| 0 <= m < order@.len() ==> #[trigger] order@[m] < t.len(),
            out@ == head + to_sep_rows(t, order@, k as int),
        decreases order@.len() - k,
    {
        let w = &rules.to_sep_words[order[k]];
        let value = escape_exec(w.value.as_str());
        let names = chars_of(unames(w.value.as_str()).as_str());
        push_row(&mut out, 9, w.id, &value, &names);
        k = k + 1;
    }
    append_text(&mut out, "TermWord ID\tKey\tValue\n");
    let ghost u = rules.term_words@;
    let order = term_order(&rules.term_words);
    let ghost head = out@;
    let mut k: usize = 0;
    while k < order.len()
        invariant
            k <= order@.len(),
            u == rules.term_words@,
            order@ == sorted_order(term_ids(u), u.len() as int),
            order@.len() == u.len(),
            forall|m: int| 0 <= m < order@.len() ==> #[trigger] order@[m] < u.len(),
            out@ == head + term_rows(u, order@, k as int),
        decreases order@.len() - k,
    {
        let w = &rules.term_words[order[k]];
        let key = chars_of(w.key.as_str());
        let value = escape_exec(w.value.as_str());
        push_row(&mut out, 8, w.id, &key, &value);
        k = k + 1;
    }
    assert(out@ =~= listing(*rules));
    string_of(&out)
}

/// The positions of separator words by increasing id.
pub fn to_sep_order(ws: &Vec<ToSepWord>) -> (r: Vec<usize>)
    ensures
        r@ == sorted_order(to_sep_ids(ws@), ws@.len() as int),
        r@.len() == ws@.len(),
        forall|m: int| 0 <= m < r@.len() ==> #[trigger] r@[m] < ws@.len(),
{
    let mut ids: Vec<i32> = Vec::new();
    let mut k: usize = 0;
    while k < ws.len()
        invariant
            k <= ws@.len(),
            ids@ =~= to_sep_ids(ws@).subrange(0, k as int),
        decreases ws@.len() - k,
    {
        ids.push(ws[k].id);
        k = k + 1;
    }
    assert(ids@ =~= to_sep_ids(ws@));
    order_by_id(&ids)
}

/// The positions of term words by increasing id.
pub fn term_order(ws: &Vec<TermWord>) -> (r: Vec<usize>)
    ensures
        r@ == sorted_order(term_ids(ws@), ws@.len() as int),
        r@.len() == ws@.len(),
        forall|m: int| 0 <= m < r@.len() ==> #[trigger] r@[m] < ws@.len(),
{
    let mut ids: Vec<i32> = Vec::new();
    let mut k: usize = 0;
    while k < ws.len()
        invariant
            k <= ws@.len(),
            ids@ =~= term_ids(ws@).subrange(0, k as int),
        decreases ws@.len() - k,
    {
        ids.push(ws[k].id);
        k = k + 1;
    }
    assert(ids@ =~= term_ids(ws@));
    order_by_id(&ids)
}

} // verus!
