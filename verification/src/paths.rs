//! Path text handled as plain strings: the final component of a path
//! and the stem/extension split of a file name, with the semantics of
//! `std::path::Path`.

use vstd::prelude::*;
use crate::text::{chars_of, dec, push_chars, push_dec, push_str, string_of};

verus! {

/// Index of the last `/` in `s`, or -1.
pub open spec fn last_slash(s: Seq<char>) -> int
    decreases s.len(),
{
    if s.len() == 0 {
        -1
    } else if s.last() == '/' {
        s.len() - 1
    } else {
        last_slash(s.drop_last())
    }
}

pub proof fn lemma_last_slash_range(s: Seq<char>)
    ensures
        -1 <= last_slash(s) < s.len(),
    decreases s.len(),
{
    if s.len() > 0 && s.last() != '/' {
        lemma_last_slash_range(s.drop_last());
    }
}

/// `Path::file_name`: the last component that is neither empty nor
/// `.`, unless that component is `..`; `None` when there is none.
pub open spec fn file_name_of(s: Seq<char>) -> Option<Seq<char>>
    decreases s.len(),
{
    let k = last_slash(s);
    let comp = s.subrange(k + 1, s.len() as int);
    if comp.len() == 0 || comp == seq!['.'] {
        if k < 0 {
            None
        } else {
            proof {
                lemma_last_slash_range(s);
            }
            file_name_of(s.subrange(0, k))
        }
    } else if comp == seq!['.', '.'] {
        None
    } else {
        Some(comp)
    }
}

proof fn lemma_last_slash(s: Seq<char>, k: int)
    requires
        -1 <= k < s.len(),
        k >= 0 ==> s[k] == '/',
        forall|j: int| k < j < s.len() ==> s[j] != '/',
    ensures
        last_slash(s) == k,
    decreases s.len(),
{
    if s.len() > 0 && s.last() != '/' {
        lemma_last_slash(s.drop_last(), k);
    }
}

/// The final component of `path` as `Path::file_name` finds it.
pub fn file_name(path: &str) -> (r: Option<String>)
    ensures
        match file_name_of(path@) {
            Some(n) => r matches Some(x) && x@ == n,
            None => r is None,
        },
{
    let cs = chars_of(path);
    let mut end = cs.len();
    assert(cs@.subrange(0, end as int) =~= cs@);
    loop
        invariant
            end <= cs@.len(),
            cs@ == path@,
            file_name_of(path@) == file_name_of(cs@.subrange(0, end as int)),
        decreases end,
    {
        let ghost s = cs@.subrange(0, end as int);
        let mut k = end;
        while k > 0 && cs[k - 1] != '/'
            invariant
                k <= end <= cs@.len(),
                forall|j: int| k <= j < end ==> cs@[j] != '/',
            decreases k,
        {
            k -= 1;
        }
        proof {
            lemma_last_slash(s, k - 1);
        }
        let ghost comp = s.subrange(k as int, end as int);
        assert(comp =~= cs@.subrange(k as int, end as int));
        let len = end - k;
        let is_dot = len == 1 && cs[k] == '.';
        let is_dotdot = len == 2 && cs[k] == '.' && cs[k + 1] == '.';
        assert(is_dot <==> comp == seq!['.']) by {
            if comp == seq!['.'] {
                assert(comp[0] == cs@[k as int]);
            }
            if is_dot {
                assert(comp =~= seq!['.']);
            }
        }
        assert(is_dotdot <==> comp == seq!['.', '.']) by {
            if comp == seq!['.', '.'] {
                assert(comp[0] == cs@[k as int] && comp[1] == cs@[k + 1]);
            }
            if is_dotdot {
                assert(comp =~= seq!['.', '.']);
            }
        }
        if len == 0 || is_dot {
            if k == 0 {
                return None;
            }
            assert(s.subrange(0, k - 1) =~= cs@.subrange(0, k - 1));
            end = k - 1;
        } else if is_dotdot {
            return None;
        } else {
            let mut out = String::new();
            let mut i = k;
            while i < end
                invariant
                    k <= i <= end <= cs@.len(),
                    out@ =~= cs@.subrange(k as int, i as int),
                decreases end - i,
            {
                crate::text::push_char(&mut out, cs[i]);
                i += 1;
            }
            return Some(out);
        }
    }
}

/// What a file's display name is: its final component, or the whole
/// path when it has none.
pub open spec fn display_name_of(path: Seq<char>) -> Seq<char> {
    match file_name_of(path) {
        Some(n) => n,
        None => path,
    }
}

/// A file's name for display: its final component, or the whole path
/// when it has none (`..`, `/`, an empty path).
pub fn file_display_name(path: &str) -> (s: String)
    ensures
        s@ == display_name_of(path@),
{
    match file_name(path) {
        Some(n) => n,
        None => path.to_string(),
    }
}

/// Index of the last `.` in `s`, or -1.
pub open spec fn last_dot(s: Seq<char>) -> int
    decreases s.len(),
{
    if s.len() == 0 {
        -1
    } else if s.last() == '.' {
        s.len() - 1
    } else {
        last_dot(s.drop_last())
    }
}

/// `Path::file_stem` and `Path::extension` of a file name: split at the
/// last `.`, except that `..`, a name without a `.` and a name whose
/// only `.` leads it have no extension.
pub open spec fn stem_ext(name: Seq<char>) -> (Seq<char>, Option<Seq<char>>) {
    let d = last_dot(name);
    if name == seq!['.', '.'] || d <= 0 {
        (name, None)
    } else {
        (name.subrange(0, d), Some(name.subrange(d + 1, name.len() as int)))
    }
}

/// The name a colliding file is stored under: `<stem>-<n>.<ext>`
/// (`<stem>-<n>` without an extension).
pub open spec fn suffixed_name_of(name: Seq<char>, n: nat) -> Seq<char> {
    let (stem, ext) = stem_ext(name);
    match ext {
        Some(e) => stem + "-"@ + dec(n) + "."@ + e,
        None => stem + "-"@ + dec(n),
    }
}

proof fn lemma_last_dot(s: Seq<char>, k: int)
    requires
        -1 <= k < s.len(),
        k >= 0 ==> s[k] == '.',
        forall|j: int| k < j < s.len() ==> s[j] != '.',
    ensures
        last_dot(s) == k,
    decreases s.len(),
{
    if s.len() > 0 && s.last() != '.' {
        lemma_last_dot(s.drop_last(), k);
    }
}

/// The name a file whose plain name is taken is stored under, for the
/// `n`-th collision.
pub fn suffixed_name(name: &str, n: u32) -> (s: String)
    ensures
        s@ == suffixed_name_of(name@, n as nat),
{
    let cs = chars_of(name);
    let mut d = cs.len();
    while d > 0 && cs[d - 1] != '.'
        invariant
            d <= cs@.len(),
            forall|j: int| d <= j < cs@.len() ==> cs@[j] != '.',
        decreases d,
    {
        d -= 1;
    }
    proof {
        lemma_last_dot(cs@, d - 1);
    }
    let is_dotdot = cs.len() == 2 && cs[0] == '.' && cs[1] == '.';
    assert(is_dotdot <==> cs@ == seq!['.', '.']) by {
        if cs@ == seq!['.', '.'] {
            assert(cs@[0] == '.' && cs@[1] == '.');
        }
        if is_dotdot {
            assert(cs@ =~= seq!['.', '.']);
        }
    }
    let mut out = String::new();
    if is_dotdot || d <= 1 {
        push_str(&mut out, name);
        push_str(&mut out, "-");
        push_dec(&mut out, n as u128);
    } else {
        let mut i: usize = 0;
        while i < d - 1
            invariant
                i <= d - 1,
                d <= cs@.len(),
                out@ =~= cs@.subrange(0, i as int),
            decreases d - 1 - i,
        {
            crate::text::push_char(&mut out, cs[i]);
            i += 1;
        }
        push_str(&mut out, "-");
        push_dec(&mut out, n as u128);
        push_str(&mut out, ".");
        let mut j: usize = d;
        let ghost before = out@;
        while j < cs.len()
            invariant
                d <= j <= cs@.len(),
                out@ =~= before + cs@.subrange(d as int, j as int),
            decreases cs@.len() - j,
        {
            crate::text::push_char(&mut out, cs[j]);
            j += 1;
        }
    }
    out
}

/// `p` with its trailing slashes removed.
pub open spec fn trim_slashes(p: Seq<char>) -> Seq<char>
    decreases p.len(),
{
    if p.len() > 0 && p.last() == '/' { trim_slashes(p.drop_last()) } else { p }
}

/// `Path::parent`, for paths without `.` components: nothing for an
/// empty path or the root; the empty path for a single relative
/// component; otherwise everything before the last component, trailing
/// slashes trimmed (the root stays).
pub open spec fn parent_of(p: Seq<char>) -> Option<Seq<char>> {
    let q = trim_slashes(p);
    if q.len() == 0 {
        None
    } else {
        let k = last_slash(q);
        if k < 0 {
            Some(Seq::empty())
        } else {
            let r = trim_slashes(q.subrange(0, k));
            if r.len() == 0 { Some(seq!['/']) } else { Some(r) }
        }
    }
}

fn trim_end_slashes(cs: &Vec<char>, end: usize) -> (e: usize)
    requires
        end <= cs@.len(),
    ensures
        e <= end,
        cs@.subrange(0, e as int) == trim_slashes(cs@.subrange(0, end as int)),
{
    let mut e = end;
    while e > 0 && cs[e - 1] == '/'
        invariant
            e <= end <= cs@.len(),
            trim_slashes(cs@.subrange(0, end as int)) == trim_slashes(cs@.subrange(0, e as int)),
        decreases e,
    {
        assert(cs@.subrange(0, e as int).drop_last() =~= cs@.subrange(0, e - 1));
        e -= 1;
    }
    e
}

/// The parent directory of `path`.
pub fn parent(path: &str) -> (r: Option<String>)
    ensures
        match parent_of(path@) {
            Some(q) => r matches Some(x) && x@ == q,
            None => r is None,
        },
{
    let cs = chars_of(path);
    assert(cs@.subrange(0, cs@.len() as int) =~= cs@);
    let e = trim_end_slashes(&cs, cs.len());
    if e == 0 {
        return None;
    }
    let ghost q = cs@.subrange(0, e as int);
    let mut k = e;
    while k > 0 && cs[k - 1] != '/'
        invariant
            k <= e <= cs@.len(),
            forall|j: int| k <= j < e ==> cs@[j] != '/',
        decreases k,
    {
        k -= 1;
    }
    proof {
        assert forall|j: int| k <= j < q.len() implies q[j] != '/' by {
            assert(q[j] == cs@[j]);
        }
        if k > 0 {
            assert(q[k - 1] == cs@[k - 1]);
        }
        lemma_last_slash(q, k - 1);
    }
    if k == 0 {
        return Some(String::new());
    }
    assert(q.subrange(0, k - 1) =~= cs@.subrange(0, k - 1));
    let r = trim_end_slashes(&cs, k - 1);
    if r == 0 {
        let mut s = String::new();
        crate::text::push_char(&mut s, '/');
        assert(s@ =~= seq!['/']);
        return Some(s);
    }
    let mut s = String::new();
    let mut i: usize = 0;
    while i < r
        invariant
            i <= r <= cs@.len(),
            s@ =~= cs@.subrange(0, i as int),
        decreases r - i,
    {
        crate::text::push_char(&mut s, cs[i]);
        i += 1;
    }
    Some(s)
}


/// `Path::extension` of a path: its file name's extension.
pub open spec fn extension_of(path: Seq<char>) -> Option<Seq<char>> {
    match file_name_of(path) {
        Some(n) => stem_ext(n).1,
        None => None,
    }
}

fn name_extension(name: &str) -> (r: Option<String>)
    ensures
        match stem_ext(name@).1 {
            Some(e) => r matches Some(x) && x@ == e,
            None => r is None,
        },
{
    let cs = chars_of(name);
    let mut d = cs.len();
    while d > 0 && cs[d - 1] != '.'
        invariant
            d <= cs@.len(),
            forall|j: int| d <= j < cs@.len() ==> cs@[j] != '.',
        decreases d,
    {
        d -= 1;
    }
    proof {
        lemma_last_dot(cs@, d - 1);
    }
    let is_dotdot = cs.len() == 2 && cs[0] == '.' && cs[1] == '.';
    assert(is_dotdot <==> cs@ == seq!['.', '.']) by {
        if cs@ == seq!['.', '.'] {
            assert(cs@[0] == '.' && cs@[1] == '.');
        }
        if is_dotdot {
            assert(cs@ =~= seq!['.', '.']);
        }
    }
    if is_dotdot || d <= 1 {
        None
    } else {
        Some(crate::text::string_of(&crate::text::sub_chars(&cs, d, cs.len())))
    }
}

/// The extension of a path's file name, if it has one.
pub fn extension(path: &str) -> (r: Option<String>)
    ensures
        match extension_of(path@) {
            Some(e) => r matches Some(x) && x@ == e,
            None => r is None,
        },
{
    match file_name(path) {
        Some(n) => name_extension(n.as_str()),
        None => None,
    }
}
} // verus!
