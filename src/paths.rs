//! Path selection logic: splitting a path into directory and bare name,
//! hidden entries, exclusion, and the child-before-parent directory order.
use vstd::prelude::*;
use vstd::seq_lib::to_multiset_insert;
use crate::text::{chars_of, slice_chars, string_of};

verus! {

/// A path split into its parent directory and its final component.
#[derive(Debug, Clone)]
pub struct DirBase {
    pub dir: String,
    pub base: String,
}

/// Length of `s[..k]` once trailing `/` and `/.` are removed, as path
/// components ignore them.
pub open spec fn trim_slashes(s: Seq<char>, k: int) -> int
    decreases k,
{
    if k > 0 && s[k - 1] == '/' {
        trim_slashes(s, k - 1)
    } else if k >= 2 && s[k - 1] == '.' && s[k - 2] == '/' {
        trim_slashes(s, k - 2)
    } else {
        k
    }
}

/// Position of the last `/` in `s[..k]`, or -1.
pub open spec fn last_slash(s: Seq<char>, k: int) -> int
    decreases k,
{
    if k <= 0 {
        -1
    } else if s[k - 1] == '/' {
        k - 1
    } else {
        last_slash(s, k - 1)
    }
}

/// The parent directory and final component of `p`, when it has both: a path
/// that is empty, only slashes, or ends in `.` or `..` has no final component.
pub open spec fn dir_base_spec(p: Seq<char>) -> Option<(Seq<char>, Seq<char>)> {
    let n = trim_slashes(p, p.len() as int);
    let j = last_slash(p, n);
    let base = p.subrange(j + 1, n);
    if n == 0 || base == seq!['.', '.'] || base == seq!['.'] {
        None
    } else if j < 0 {
        Some((Seq::empty(), base))
    } else if trim_slashes(p, j) == 0 {
        Some((seq!['/'], base))
    } else {
        Some((p.subrange(0, trim_slashes(p, j)), base))
    }
}

/// An entry is hidden when its final component starts with `.`.
pub open spec fn is_hidden_spec(p: Seq<char>) -> bool {
    match dir_base_spec(p) {
        Some(db) => db.1.len() > 0 && db.1[0] == '.',
        None => false,
    }
}

proof fn lemma_trim(s: Seq<char>, k: int)
    requires
        0 <= k <= s.len(),
    ensures
        0 <= trim_slashes(s, k) <= k,
        trim_slashes(s, k) > 0 ==> s[trim_slashes(s, k) - 1] != '/',
    decreases k,
{
    if k > 0 && s[k - 1] == '/' {
        lemma_trim(s, k - 1);
    } else if k >= 2 && s[k - 1] == '.' && s[k - 2] == '/' {
        lemma_trim(s, k - 2);
    }
}

proof fn lemma_last_slash(s: Seq<char>, k: int)
    requires
        0 <= k <= s.len(),
    ensures
        -1 <= last_slash(s, k) < k,
    decreases k,
{
    if k > 0 {
        lemma_last_slash(s, k - 1);
    }
}

fn trim_exec(s: &Vec<char>, k: usize) -> (r: usize)
    requires
        k <= s@.len(),
    ensures
        r as int == trim_slashes(s@, k as int),
{
    let mut m: usize = k;
    loop
        invariant
            m <= k,
            k <= s@.len(),
            trim_slashes(s@, k as int) == trim_slashes(s@, m as int),
        decreases m,
    {
        if m > 0 && s[m - 1] == '/' {
            m = m - 1;
        } else if m >= 2 && s[m - 1] == '.' && s[m - 2] == '/' {
            m = m - 2;
        } else {
            return m;
        }
    }
}

fn last_slash_exec(s: &Vec<char>, k: usize) -> (r: Option<usize>)
    requires
        k <= s@.len(),
    ensures
        match r {
            Some(j) => j as int == last_slash(s@, k as int) && j < k,
            None => last_slash(s@, k as int) == -1,
        },
{
    let mut m: usize = k;
    while m > 0
        invariant
            m <= k,
            k <= s@.len(),
            last_slash(s@, k as int) == last_slash(s@, m as int),
        decreases m,
    {
        if s[m - 1] == '/' {
            return Some(m - 1);
        }
        m = m - 1;
    }
    None
}

/// Splits `abs_path` into parent directory and final component.
pub fn dir_base(abs_path: &str) -> (r: Option<DirBase>)
    ensures
        match dir_base_spec(abs_path@) {
            Some(db) => r is Some && r->0.dir@ == db.0 && r->0.base@ == db.1,
            None => r is None,
        },
{
    let p = chars_of(abs_path);
    proof {
        lemma_trim(p@, p@.len() as int);
    }
    let n = trim_exec(&p, p.len());
    if n == 0 {
        return None;
    }
    proof {
        lemma_last_slash(p@, n as int);
    }
    let j = last_slash_exec(&p, n);
    let start: usize = match j {
        Some(j) => j + 1,
        None => 0,
    };
    let base = slice_chars(&p, start, n);
    if base.len() == 2 && base[0] == '.' && base[1] == '.' {
        assert(base@ =~= seq!['.', '.']);
        return None;
    }
    if base.len() == 1 && base[0] == '.' {
        assert(base@ =~= seq!['.']);
        return None;
    }
    assert(base@ != seq!['.', '.'] && base@ != seq!['.']) by {
        if base@ == seq!['.', '.'] {
            assert(base@.len() == 2 && base@[0] == '.' && base@[1] == '.');
        }
        if base@ == seq!['.'] {
            assert(base@.len() == 1 && base@[0] == '.');
        }
    }
    match j {
        None => {
            Some(DirBase { dir: String::new(), base: string_of(&base) })
        },
        Some(j) => {
            proof {
                lemma_trim(p@, j as int);
            }
            let d = trim_exec(&p, j);
            if d == 0 {
                let mut root: Vec<char> = Vec::new();
                root.push('/');
                assert(root@ =~= seq!['/']);
                Some(DirBase { dir: string_of(&root), base: string_of(&base) })
            } else {
                Some(DirBase { dir: string_of(&slice_chars(&p, 0, d)), base: string_of(&base) })
            }
        },
    }
}

/// Whether the entry at `path` is hidden by the POSIX convention.
pub fn is_hidden_unix(path: &str) -> (r: bool)
    ensures
        r == is_hidden_spec(path@),
{
    match dir_base(path) {
        Some(db) => {
            let n = db.base.unicode_len();
            n > 0 && db.base.get_char(0) == '.'
        },
        None => false,
    }
}

/// Whether the entry at `path` is hidden.
pub fn is_hidden(path: &str) -> (r: bool)
    ensures
        r == is_hidden_spec(path@),
{
    is_hidden_unix(path)
}

/// Lexicographic order by code point, compared from position `i`.
pub open spec fn lex_from(a: Seq<char>, b: Seq<char>, i: int) -> bool
    decreases a.len() - i,
{
    if i < 0 || i >= b.len() {
        false
    } else if i >= a.len() {
        true
    } else if a[i] != b[i] {
        a[i] < b[i]
    } else {
        lex_from(a, b, i + 1)
    }
}

/// `a` sorts strictly before `b`.
pub open spec fn lex_lt(a: Seq<char>, b: Seq<char>) -> bool {
    lex_from(a, b, 0)
}

proof fn lemma_lex_trans(a: Seq<char>, b: Seq<char>, c: Seq<char>, i: int)
    requires
        0 <= i,
        lex_from(a, b, i),
        lex_from(b, c, i),
    ensures
        lex_from(a, c, i),
    decreases a.len() - i,
{
    if i < a.len() && a[i] == b[i] && b[i] == c[i] {
        lemma_lex_trans(a, b, c, i + 1);
    }
}

proof fn lemma_lex_total(a: Seq<char>, b: Seq<char>, i: int)
    requires
        0 <= i,
        i <= a.len(),
        i <= b.len(),
        a != b,
        a.subrange(0, i) == b.subrange(0, i),
    ensures
        lex_from(a, b, i) || lex_from(b, a, i),
    decreases a.len() - i,
{
    if i < a.len() && i < b.len() && a[i] == b[i] {
        assert(a.subrange(0, i + 1) =~= a.subrange(0, i).push(a[i]));
        assert(b.subrange(0, i + 1) =~= b.subrange(0, i).push(b[i]));
        lemma_lex_total(a, b, i + 1);
    } else if i == a.len() && i == b.len() {
        assert(a =~= a.subrange(0, i));
        assert(b =~= b.subrange(0, i));
    }
}

proof fn lemma_lex_asym(a: Seq<char>, b: Seq<char>, i: int)
    requires
        0 <= i,
        lex_from(a, b, i),
    ensures
        !lex_from(b, a, i),
    decreases a.len() - i,
{
    if i < a.len() && a[i] == b[i] {
        lemma_lex_asym(a, b, i + 1);
    }
}

fn lex_less(a: &Vec<char>, b: &Vec<char>) -> (r: bool)
    ensures
        r == lex_lt(a@, b@),
{
    let mut i: usize = 0;
    loop
        invariant
            lex_lt(a@, b@) == lex_from(a@, b@, i as int),
            i <= a@.len(),
            i <= b@.len(),
        decreases a@.len() - i,
    {
        if i >= b.len() {
            return false;
        }
        if i >= a.len() {
            return true;
        }
        if a[i] != b[i] {
            return a[i] < b[i];
        }
        i = i + 1;
    }
}

pub open spec fn names(s: Seq<String>) -> Seq<Seq<char>> {
    s.map_values(|x: String| x@)
}

/// No entry sorts strictly before an entry that comes later: the order of a
/// batch of directories, deeper paths before their ancestors.
pub open spec fn descending(s: Seq<Seq<char>>) -> bool {
    forall|i: int, j: int| 0 <= i < j < s.len() ==> !lex_lt(#[trigger] s[i], #[trigger] s[j])
}

/// Orders directory paths in reverse lexicographic order, so that every
/// path comes before each of its ancestors.
pub fn directory_order(paths: &Vec<String>) -> (r: Vec<String>)
    ensures
        r@.len() == paths@.len(),
        r@.to_multiset() == paths@.to_multiset(),
        descending(names(r@)),
{
    broadcast use vstd::seq_lib::group_to_multiset_ensures;

    let mut out: Vec<String> = Vec::new();
    let mut k: usize = 0;
    while k < paths.len()
        invariant
            k <= paths@.len(),
            out@.len() == k,
            out@.to_multiset() == paths@.subrange(0, k as int).to_multiset(),
            descending(names(out@)),
        decreases paths@.len() - k,
    {
        let x = paths[k].clone();
        let xc = chars_of(x.as_str());
        let mut pos: usize = 0;
        while pos < out.len() && !lex_less(&chars_of(out[pos].as_str()), &xc)
            invariant
                pos <= out@.len(),
                xc@ == x@,
                forall|m: int| 0 <= m < pos ==> !lex_lt(#[trigger] out@[m]@, x@),
            decreases out@.len() - pos,
        {
            pos = pos + 1;
        }
        let ghost old_out = out@;
        proof {
            if pos < old_out.len() {
                assert(lex_lt(old_out[pos as int]@, x@));
                assert forall|m: int| pos < m < old_out.len() implies lex_lt(
                    #[trigger] old_out[m]@,
                    x@,
                ) by {
                    assert(names(old_out)[pos as int] == old_out[pos as int]@);
                    assert(names(old_out)[m] == old_out[m]@);
                    assert(!lex_lt(old_out[pos as int]@, old_out[m]@));
                    if old_out[m]@ != old_out[pos as int]@ {
                        assert(old_out[m]@.subrange(0, 0) =~= old_out[pos as int]@.subrange(0, 0));
                        lemma_lex_total(old_out[m]@, old_out[pos as int]@, 0);
                        lemma_lex_trans(old_out[m]@, old_out[pos as int]@, x@, 0);
                    }
                }
            }
            to_multiset_insert(old_out, pos as int, x);
        }
        assert(x == paths@[k as int]);
        out.insert(pos, x);
        proof {
            assert(out@ == old_out.insert(pos as int, x));
            assert(paths@.subrange(0, k + 1) =~= paths@.subrange(0, k as int).push(paths@[k as int]));
            vstd::seq_lib::to_multiset_build(paths@.subrange(0, k as int), paths@[k as int]);
            let nv = names(out@);
            assert forall|i: int, j: int| 0 <= i < j < nv.len() implies !lex_lt(
                #[trigger] nv[i],
                #[trigger] nv[j],
            ) by {
                let ov = names(old_out);
                if j < pos {
                    assert(nv[i] == ov[i] && nv[j] == ov[j]);
                } else if j == pos {
                    assert(nv[i] == old_out[i]@);
                } else if i > pos {
                    assert(nv[i] == ov[i - 1] && nv[j] == ov[j - 1]);
                } else if i == pos {
                    assert(nv[j] == old_out[j - 1]@);
                    lemma_lex_asym(old_out[j - 1]@, x@, 0);
                } else {
                    assert(nv[i] == ov[i] && nv[j] == ov[j - 1]);
                }
            }
        }
        k = k + 1;
    }
    assert(paths@.subrange(0, paths@.len() as int) =~= paths@);
    out
}

/// `p` lies at or under `e`, comparing whole path components.
pub open spec fn under(p: Seq<char>, e: Seq<char>) -> bool {
    e.len() == 0 || (e.len() <= p.len() && p.subrange(0, e.len() as int) == e && (e.len()
        == p.len() || e[e.len() - 1] == '/' || p[e.len() as int] == '/'))
}

pub open spec fn excluded(p: Seq<char>, ex: Seq<Seq<char>>) -> bool {
    exists|i: int| 0 <= i < ex.len() && under(p, #[trigger] ex[i])
}

/// The first `k` paths, without those under an excluded path, in order.
pub open spec fn kept(ps: Seq<Seq<char>>, ex: Seq<Seq<char>>, k: int) -> Seq<Seq<char>>
    decreases k,
{
    if k <= 0 {
        Seq::empty()
    } else if excluded(ps[k - 1], ex) {
        kept(ps, ex, k - 1)
    } else {
        kept(ps, ex, k - 1).push(ps[k - 1])
    }
}

fn under_exec(p: &Vec<char>, e: &Vec<char>) -> (r: bool)
    ensures
        r == under(p@, e@),
{
    if e.len() == 0 {
        return true;
    }
    if e.len() > p.len() {
        return false;
    }
    let mut i: usize = 0;
    while i < e.len()
        invariant
            e@.len() <= p@.len(),
            i <= e@.len(),
            forall|m: int| 0 <= m < i ==> p@[m] == e@[m],
        decreases e@.len() - i,
    {
        if p[i] != e[i] {
            assert(p@.subrange(0, e@.len() as int)[i as int] != e@[i as int]);
            return false;
        }
        i = i + 1;
    }
    assert(p@.subrange(0, e@.len() as int) =~= e@);
    e.len() == p.len() || e[e.len() - 1] == '/' || p[e.len()] == '/'
}

/// The paths that lie under none of `excludes`, in the order given.
pub fn without_excluded(paths: &Vec<String>, excludes: &Vec<String>) -> (r: Vec<String>)
    ensures
        names(r@) == kept(names(paths@), names(excludes@), paths@.len() as int),
{
    let ghost ps = names(paths@);
    let ghost ex = names(excludes@);
    let mut ecs: Vec<Vec<char>> = Vec::new();
    let mut j: usize = 0;
    while j < excludes.len()
        invariant
            j <= excludes@.len(),
            ex == names(excludes@),
            ecs@.len() == j,
            forall|m: int| 0 <= m < j ==> #[trigger] ecs@[m]@ == ex[m],
        decreases excludes@.len() - j,
    {
        ecs.push(chars_of(excludes[j].as_str()));
        j = j + 1;
    }
    let mut out: Vec<String> = Vec::new();
    let mut k: usize = 0;
    while k < paths.len()
        invariant
            k <= paths@.len(),
            ps == names(paths@),
            ex == names(excludes@),
            ecs@.len() == ex.len(),
            forall|m: int| 0 <= m < ex.len() ==> #[trigger] ecs@[m]@ == ex[m],
            names(out@) == kept(ps, ex, k as int),
        decreases paths@.len() - k,
    {
        let pc = chars_of(paths[k].as_str());
        let mut hit = false;
        let mut j: usize = 0;
        while j < ecs.len()
            invariant
                j <= ecs@.len(),
                ecs@.len() == ex.len(),
                pc@ == ps[k as int],
                forall|m: int| 0 <= m < ex.len() ==> #[trigger] ecs@[m]@ == ex[m],
                hit == exists|m: int| 0 <= m < j && under(ps[k as int], #[trigger] ex[m]),
            decreases ecs@.len() - j,
        {
            if under_exec(&pc, &ecs[j]) {
                hit = true;
            }
            j = j + 1;
        }
        if !hit {
            let ghost before = out@;
            out.push(paths[k].clone());
            assert(names(out@) =~= names(before).push(ps[k as int]));
        }
        k = k + 1;
    }
    out
}

} // verus!
