//! The before/after presentation of a rename, stem and extension compared
//! separately.
use vstd::prelude::*;
use crate::engine::{ext_of, split_name, stem_of};
use crate::text::text_eq;
use crate::text::{append_all, chars_of, string_of};

verus! {

/// `s` followed by spaces up to `n` characters.
pub open spec fn pad(s: Seq<char>, n: int) -> Seq<char> {
    if n <= s.len() {
        s
    } else {
        s + Seq::new((n - s.len()) as nat, |i: int| ' ')
    }
}

pub open spec fn max(a: int, b: int) -> int {
    if a >= b {
        a
    } else {
        b
    }
}

/// A name rendered from its stem and extension: the `.` stands only where
/// the extension is not empty.
pub open spec fn joined(stem: Seq<char>, ext: Seq<char>) -> Seq<char> {
    if ext.len() == 0 {
        stem
    } else {
        stem + seq!['.'] + ext
    }
}

/// The two renderings: plain keeps each piece as it is; aligned pads the
/// shorter of each pair of pieces with spaces so that both lines line up.
pub open spec fn compare_spec(o: Seq<char>, e: Seq<char>, aligned: bool) -> (Seq<char>, Seq<char>) {
    let (os, oe, es, ee) = (stem_of(o), ext_of(o), stem_of(e), ext_of(e));
    if aligned {
        let sw = max(os.len() as int, es.len() as int);
        let ew = max(oe.len() as int, ee.len() as int);
        (joined(pad(os, sw), pad(oe, ew)), joined(pad(es, sw), pad(ee, ew)))
    } else {
        (joined(os, oe), joined(es, ee))
    }
}

/// The stem and extension of a bare name; the extension is empty when the
/// name has none.
pub fn stem_ext(name: &str) -> (r: (String, String))
    ensures
        r.0@ == stem_of(name@),
        r.1@ == ext_of(name@),
{
    let (stem, ext, _) = split_name(&chars_of(name));
    (string_of(&stem), string_of(&ext))
}

fn padded(s: &Vec<char>, n: usize) -> (r: Vec<char>)
    ensures
        r@ == pad(s@, n as int),
{
    let mut r: Vec<char> = Vec::new();
    let mut i: usize = 0;
    while i < s.len()
        invariant
            i <= s@.len(),
            r@ == s@.subrange(0, i as int),
        decreases s@.len() - i,
    {
        r.push(s[i]);
        assert(s@.subrange(0, i + 1) =~= s@.subrange(0, i as int).push(s@[i as int]));
        i = i + 1;
    }
    assert(r@ =~= s@);
    if n <= s.len() {
        return r;
    }
    let ghost base = r@;
    while i < n
        invariant
            s@.len() <= i <= n,
            base == s@,
            r@ == s@ + Seq::new((i - s@.len()) as nat, |m: int| ' '),
        decreases n - i,
    {
        r.push(' ');
        assert(s@ + Seq::new((i + 1 - s@.len()) as nat, |m: int| ' ') =~= (s@ + Seq::new(
            (i - s@.len()) as nat,
            |m: int| ' ',
        )).push(' '));
        i = i + 1;
    }
    r
}

fn joined_exec(stem: &Vec<char>, ext: &Vec<char>) -> (r: String)
    ensures
        r@ == joined(stem@, ext@),
{
    let mut r: Vec<char> = Vec::new();
    append_all(&mut r, stem);
    if ext.len() > 0 {
        r.push('.');
        append_all(&mut r, ext);
    }
    assert(r@ =~= joined(stem@, ext@));
    string_of(&r)
}

/// Renders the old and the edited name for display; `mode` `"a"` aligns
/// them, any other mode prints them plain.
pub fn fname_compare(origin: &str, edit: &str, mode: &str) -> (r: (String, String))
    ensures
        (r.0@, r.1@) == compare_spec(origin@, edit@, mode@ == seq!['a']),
{
    let (os, oe, _) = split_name(&chars_of(origin));
    let (es, ee, _) = split_name(&chars_of(edit));
    proof {
        reveal_strlit("a");
    }
    let aligned = text_eq(mode, "a");
    assert(aligned == (mode@ == seq!['a'])) by {
        assert("a"@ =~= seq!['a']);
    }
    if aligned {
        let sw = if os.len() >= es.len() { os.len() } else { es.len() };
        let ew = if oe.len() >= ee.len() { oe.len() } else { ee.len() };
        (joined_exec(&padded(&os, sw), &padded(&oe, ew)), joined_exec(&padded(&es, sw), &padded(&ee, ew)))
    } else {
        (joined_exec(&os, &oe), joined_exec(&es, &ee))
    }
}

} // verus!
