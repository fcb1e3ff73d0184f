//! Paths, held as their text (`/`-separated, as on Unix).
use vstd::prelude::*;

use crate::text::{chars_of, push_all, string_of};

verus! {

/// `PathBuf::join`: a relative `comp` is appended after a separator (none
/// is added when `base` is empty or already ends with one); an absolute
/// `comp` replaces `base`.
pub open spec fn path_join(base: Seq<char>, comp: Seq<char>) -> Seq<char> {
    if comp.len() > 0 && comp[0] == '/' {
        comp
    } else if base.len() > 0 && base.last() != '/' {
        base + seq!['/'] + comp
    } else {
        base + comp
    }
}

/// `PathBuf::join` on path text.
pub fn path_join_str(base: &str, comp: &str) -> (r: String)
    ensures
        r@ == path_join(base@, comp@),
{
    let b = chars_of(base);
    let c = chars_of(comp);
    if c.len() > 0 && c[0] == '/' {
        return string_of(c.as_slice());
    }
    let mut out = b.clone();
    assert(out@ == b@);
    if b.len() > 0 && b[b.len() - 1] != '/' {
        out.push('/');
    }
    push_all(&mut out, c.as_slice());
    string_of(out.as_slice())
}

/// `Path::file_name`: the last component of the path, where empty and `.`
/// components do not count; `None` when there is none or it is `..`.
pub open spec fn path_file_name(p: Seq<char>) -> Option<Seq<char>>
    decreases p.len(),
{
    let seg = last_segment(p);
    if p.len() == 0 {
        None
    } else if seg.len() == 0 || seg == "."@ {
        if seg.len() < p.len() {
            proof {
                lemma_last_segment_suffix(p);
            }
            path_file_name(p.take(p.len() - seg.len() - 1))
        } else {
            None
        }
    } else if seg == ".."@ {
        None
    } else {
        Some(seg)
    }
}

/// `Path::file_stem`.
pub open spec fn path_file_stem(p: Seq<char>) -> Option<Seq<char>> {
    match path_file_name(p) {
        Some(name) => Some(stem_of_name(name)),
        None => None,
    }
}

/// Text after the last `/`.
pub open spec fn last_segment(p: Seq<char>) -> Seq<char>
    decreases p.len(),
{
    if p.len() == 0 {
        p
    } else if p.last() == '/' {
        Seq::empty()
    } else {
        last_segment(p.drop_last()).push(p.last())
    }
}

/// Index of the last `c` in `s`.
pub open spec fn last_index(s: Seq<char>, c: char) -> Option<int>
    decreases s.len(),
{
    if s.len() == 0 {
        None
    } else if s.last() == c {
        Some(s.len() - 1)
    } else {
        last_index(s.drop_last(), c)
    }
}

/// `Path::file_stem` of a file name: the name up to its last `.`, unless
/// that dot is the first character (or there is none).
pub open spec fn stem_of_name(name: Seq<char>) -> Seq<char> {
    match last_index(name, '.') {
        Some(i) if i > 0 => name.take(i),
        _ => name,
    }
}

/// `Path::extension` of a file name.
pub open spec fn extension_of_name(name: Seq<char>) -> Option<Seq<char>> {
    match last_index(name, '.') {
        Some(i) if i > 0 => Some(name.skip(i + 1)),
        _ => None,
    }
}

pub proof fn lemma_last_index(s: Seq<char>, c: char)
    ensures
        last_index(s, c) matches Some(i) ==> 0 <= i < s.len() && s[i] == c && forall|k: int|
            i < k < s.len() ==> s[k] != c,
        last_index(s, c) is None ==> forall|k: int| 0 <= k < s.len() ==> s[k] != c,
    decreases s.len(),
{
    if s.len() > 0 && s.last() != c {
        lemma_last_index(s.drop_last(), c);
        assert(forall|k: int| 0 <= k < s.len() - 1 ==> s[k] == s.drop_last()[k]);
    }
}

/// Index of the last `c` in `s`.
pub fn find_last(s: &[char], c: char) -> (r: Option<usize>)
    ensures
        r matches Some(i) ==> last_index(s@, c) == Some(i as int),
        r is None ==> last_index(s@, c) is None,
{
    let mut k: usize = s.len();
    assert(s@.take(k as int) =~= s@);
    while k > 0
        invariant
            k <= s@.len(),
            last_index(s@, c) == last_index(s@.take(k as int), c),
        decreases k,
    {
        assert(s@.take(k as int).drop_last() =~= s@.take(k - 1));
        if s[k - 1] == c {
            return Some(k - 1);
        }
        k = k - 1;
    }
    None
}

pub fn stem_of(name: &[char]) -> (r: Vec<char>)
    ensures
        r@ == stem_of_name(name@),
{
    assert(name@.take(name@.len() as int) =~= name@);
    proof {
        lemma_last_index(name@, '.');
    }
    match find_last(name, '.') {
        Some(i) => if i > 0 {
            crate::text::slice_chars(name, 0, i)
        } else {
            crate::text::slice_chars(name, 0, name.len())
        },
        None => crate::text::slice_chars(name, 0, name.len()),
    }
}

/// The file has extension `md`.
pub fn has_md_extension(name: &[char]) -> (b: bool)
    ensures
        b == (extension_of_name(name@) == Some("md"@)),
{
    proof {
        lemma_last_index(name@, '.');
    }
    match find_last(name, '.') {
        Some(i) => if i > 0 {
            assert(i < name.len());
            let ext = crate::text::slice_chars(name, i + 1, name.len());
            assert(ext@ =~= name@.skip(i + 1));
            let md = chars_of("md");
            crate::text::chars_eq(ext.as_slice(), md.as_slice())
        } else {
            false
        },
        None => false,
    }
}

pub proof fn lemma_last_segment_suffix(p: Seq<char>)
    ensures
        last_segment(p).len() <= p.len(),
        last_segment(p) == p.skip(p.len() - last_segment(p).len()),
        forall|k: int| 0 <= k < last_segment(p).len() ==> last_segment(p)[k] != '/',
        last_segment(p).len() < p.len() ==> p[p.len() - last_segment(p).len() - 1] == '/',
    decreases p.len(),
{
    if p.len() > 0 && p.last() != '/' {
        lemma_last_segment_suffix(p.drop_last());
        let l = last_segment(p.drop_last());
        assert(last_segment(p) == l.push(p.last()));
        assert(p.skip(p.len() - (l.len() + 1)) =~= p.drop_last().skip(p.drop_last().len() - l.len()).push(p.last()));
    } else if p.len() > 0 {
        assert(p.skip(p.len() as int) =~= Seq::<char>::empty());
    } else {
        assert(p.skip(0) =~= p);
    }
}

/// `Path::file_name`.
pub fn file_name_of(p: &[char]) -> (r: Option<Vec<char>>)
    ensures
        r matches Some(n) ==> path_file_name(p@) == Some(n@),
        r is None ==> path_file_name(p@) is None,
{
    let dot = chars_of(".");
    let dotdot = chars_of("..");
    let mut end: usize = p.len();
    assert(p@.take(end as int) =~= p@);
    while end > 0
        invariant
            end <= p@.len(),
            path_file_name(p@) == path_file_name(p@.take(end as int)),
            dot@ == "."@,
            dotdot@ == ".."@,
        decreases end,
    {
        let ghost q = p@.take(end as int);
        let mut start: usize = end;
        while start > 0 && p[start - 1] != '/'
            invariant
                start <= end <= p@.len(),
                q == p@.take(end as int),
                last_segment(q) == last_segment(p@.take(start as int)) + p@.subrange(
                    start as int,
                    end as int,
                ),
            decreases start,
        {
            assert(p@.take(start as int).drop_last() =~= p@.take(start - 1));
            start = start - 1;
            assert(last_segment(p@.take(start + 1)) == last_segment(p@.take(start as int)).push(
                p@[start as int],
            ));
            assert(last_segment(q) =~= last_segment(p@.take(start as int)) + p@.subrange(
                start as int,
                end as int,
            ));
        }
        if start > 0 {
            assert(p@.take(start as int).last() == '/');
        }
        assert(last_segment(p@.take(start as int)) =~= Seq::<char>::empty());
        let seg = crate::text::slice_chars(p, start, end);
        assert(seg@ == last_segment(q));
        if seg.len() == 0 || crate::text::chars_eq(seg.as_slice(), dot.as_slice()) {
            if start == 0 {
                return None;
            }
            assert(q.take(q.len() - seg@.len() - 1) =~= p@.take(start - 1));
            end = start - 1;
        } else if crate::text::chars_eq(seg.as_slice(), dotdot.as_slice()) {
            return None;
        } else {
            return Some(seg);
        }
    }
    None
}

} // verus!
