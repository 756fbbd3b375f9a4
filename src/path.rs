//! A model of Unix path text: the final component of a path, the name of
//! the directory that contains it, and a file name's extension.

use vstd::prelude::*;

verus! {

/// Where the component that ends at `p.len()` starts: just past the last `/`.
pub open spec fn component_start(p: Seq<char>) -> int
    decreases p.len(),
{
    if p.len() == 0 {
        0
    } else if p.last() == '/' {
        p.len() as int
    } else {
        component_start(p.drop_last())
    }
}

/// The bounds, within `p`, of the final normal component of the path `p`.
/// Trailing separators and `.` components are skipped; a path that ends in
/// `..`, that is a root, or that is empty has none.
pub open spec fn final_range(p: Seq<char>) -> Option<(int, int)>
    decreases p.len(),
{
    if p.len() == 0 {
        None
    } else if p.last() == '/' {
        final_range(p.drop_last())
    } else {
        let s = component_start(p);
        let c = p.subrange(s, p.len() as int);
        if c == seq!['.'] {
            if s == 0 {
                None
            } else {
                final_range(p.drop_last())
            }
        } else if c == seq!['.', '.'] {
            None
        } else {
            Some((s, p.len() as int))
        }
    }
}

/// The final component of the path `p`, if it has one.
pub open spec fn file_name_of(p: Seq<char>) -> Option<Seq<char>> {
    match final_range(p) {
        Some((s, e)) => Some(p.subrange(s, e)),
        None => None,
    }
}

/// The name of the directory that holds the final component of `p`.
pub open spec fn parent_name_of(p: Seq<char>) -> Option<Seq<char>> {
    match final_range(p) {
        Some((s, _)) => file_name_of(p.subrange(0, s)),
        None => None,
    }
}

/// Index of the last `.` in `n`, or -1 where there is none.
pub open spec fn last_dot(n: Seq<char>) -> int
    decreases n.len(),
{
    if n.len() == 0 {
        -1
    } else if n.last() == '.' {
        n.len() - 1
    } else {
        last_dot(n.drop_last())
    }
}

/// The extension of a file name: the text after its last `.`, where that
/// `.` is not the name's first character.
pub open spec fn name_extension(n: Seq<char>) -> Option<Seq<char>> {
    if last_dot(n) <= 0 {
        None
    } else {
        Some(n.subrange(last_dot(n) + 1, n.len() as int))
    }
}

/// The extension of the final component of the path `p`.
pub open spec fn extension_of(p: Seq<char>) -> Option<Seq<char>> {
    match file_name_of(p) {
        Some(n) => name_extension(n),
        None => None,
    }
}

/// Whether `needle` occurs in `hay` as a run of consecutive characters.
pub open spec fn contains_run(hay: Seq<char>, needle: Seq<char>) -> bool {
    exists|i: int|
        0 <= i && i + needle.len() <= hay.len() && #[trigger] hay.subrange(i, i + needle.len())
            == needle
}

/// The characters of `s`, one by one.
pub fn chars_of(s: &str) -> (r: Vec<char>)
    ensures
        r@ == s@,
{
    let n = s.unicode_len();
    let mut r: Vec<char> = Vec::new();
    let mut i: usize = 0;
    while i < n
        invariant
            n == s@.len(),
            i <= n,
            r@ == s@.subrange(0, i as int),
        decreases n - i,
    {
        r.push(s.get_char(i));
        i = i + 1;
        assert(r@ =~= s@.subrange(0, i as int));
    }
    assert(r@ =~= s@);
    r
}

/// Whether `a` and `b` hold the same characters.
pub fn same_chars(a: &[char], b: &[char]) -> (r: bool)
    ensures
        r == (a@ == b@),
{
    if a.len() != b.len() {
        return false;
    }
    let mut i: usize = 0;
    while i < a.len()
        invariant
            a@.len() == b@.len(),
            i <= a@.len(),
            forall|k: int| 0 <= k < i ==> a@[k] == b@[k],
        decreases a.len() - i,
    {
        if a[i] != b[i] {
            return false;
        }
        i = i + 1;
    }
    assert(a@ =~= b@);
    true
}

/// Whether `needle` occurs in `hay` as a run of consecutive characters.
pub fn has_run(hay: &[char], needle: &[char]) -> (r: bool)
    ensures
        r == contains_run(hay@, needle@),
{
    if needle.len() > hay.len() {
        return false;
    }
    let n: usize = hay.len();
    let last = n - needle.len();
    let mut i: usize = 0;
    while i <= last
        invariant
            n == hay@.len(),
            last == hay@.len() - needle@.len(),
            i <= last + 1,
            forall|k: int|
                0 <= k < i ==> #[trigger] hay@.subrange(k, k + needle@.len()) != needle@,
        decreases last + 1 - i,
    {
        let mut j: usize = 0;
        let mut same = true;
        while j < needle.len()
            invariant
                i <= last,
                n == hay@.len(),
                last == hay@.len() - needle@.len(),
                i + needle@.len() <= hay@.len(),
                j <= needle@.len(),
                same == forall|k: int| 0 <= k < j ==> hay@[i + k] == needle@[k],
            decreases needle.len() - j,
        {
            if hay[i + j] != needle[j] {
                same = false;
            }
            j = j + 1;
        }
        if same {
            assert(hay@.subrange(i as int, i + needle@.len()) =~= needle@);
            return true;
        }
        proof {
            let w = hay@.subrange(i as int, i + needle@.len());
            assert(exists|k: int| 0 <= k < needle@.len() && hay@[i + k] != needle@[k]);
            let k = choose|k: int| 0 <= k < needle@.len() && hay@[i + k] != needle@[k];
            assert(w[k] != needle@[k]);
        }
        i = i + 1;
    }
    false
}

/// The bounds of the final normal component of the path held in
/// `p[0..len]`.
pub fn final_component(p: &Vec<char>, len: usize) -> (r: Option<(usize, usize)>)
    requires
        len <= p@.len(),
    ensures
        r matches Some((s, e)) ==> s <= e <= len && final_range(p@.subrange(0, len as int))
            == Some((s as int, e as int)),
        r is None ==> final_range(p@.subrange(0, len as int)) is None,
{
    let mut end: usize = len;
    loop
        invariant
            len <= p@.len(),
            end <= len,
            final_range(p@.subrange(0, end as int)) == final_range(p@.subrange(0, len as int)),
        decreases end,
    {
        let ghost q = p@.subrange(0, end as int);
        if end == 0 {
            return None;
        }
        if p[end - 1] == '/' {
            assert(q.drop_last() =~= p@.subrange(0, end - 1));
            end = end - 1;
        } else {
            let mut start: usize = end;
            while start > 0 && p[start - 1] != '/'
                invariant
                    end <= p@.len(),
                    start <= end,
                    q == p@.subrange(0, end as int),
                    component_start(q) == component_start(p@.subrange(0, start as int)),
                decreases start,
            {
                assert(p@.subrange(0, start as int).drop_last() =~= p@.subrange(0, start - 1));
                start = start - 1;
            }
            assert(component_start(q) == start);
            let ghost c = q.subrange(start as int, end as int);
            if end - start == 1 && p[start] == '.' {
                assert(c =~= seq!['.']);
                if start == 0 {
                    return None;
                }
                assert(q.drop_last() =~= p@.subrange(0, end - 1));
                end = end - 1;
            } else if end - start == 2 && p[start] == '.' && p[start + 1] == '.' {
                assert(c =~= seq!['.', '.']);
                return None;
            } else {
                assert(c != seq!['.'] && c != seq!['.', '.']) by {
                    if c == seq!['.'] {
                        assert(c.len() == 1 && c[0] == p@[start as int]);
                    }
                    if c == seq!['.', '.'] {
                        assert(c.len() == 2 && c[0] == p@[start as int] && c[1] == p@[start + 1]);
                    }
                }
                return Some((start, end));
            }
        }
    }
}

/// The final component of the path `p`, if it has one.
pub fn file_name(p: &str) -> (r: Option<String>)
    ensures
        r matches Some(n) ==> file_name_of(p@) == Some(n@),
        r is None ==> file_name_of(p@) is None,
{
    let cs = chars_of(p);
    assert(cs@.subrange(0, cs@.len() as int) =~= p@);
    match final_component(&cs, cs.len()) {
        Some((s, e)) => Some(p.substring_char(s, e).to_owned()),
        None => None,
    }
}

/// Whether the final component of `file` is named as the directory that
/// holds it.
pub fn has_same_name_as_parent_dir(file: &str) -> (r: bool)
    ensures
        r == (file_name_of(file@) is Some && file_name_of(file@) == parent_name_of(file@)),
{
    let cs = chars_of(file);
    assert(cs@.subrange(0, cs@.len() as int) =~= file@);
    match final_component(&cs, cs.len()) {
        Some((s, e)) => {
            match final_component(&cs, s) {
                Some((ps, pe)) => {
                    assert(file@.subrange(0, s as int).subrange(ps as int, pe as int)
                        =~= cs@.subrange(ps as int, pe as int));
                    assert(parent_name_of(file@) == Some(file@.subrange(ps as int, pe as int)));
                    assert(file_name_of(file@) == Some(file@.subrange(s as int, e as int)));
                    let mut i: usize = 0;
                    if pe - ps != e - s {
                        assert(file@.subrange(ps as int, pe as int).len() != file@.subrange(s as int, e as int).len());
                        return false;
                    }
                    while i < e - s
                        invariant
                            cs@ == file@,
                            parent_name_of(file@) == Some(file@.subrange(ps as int, pe as int)),
                            file_name_of(file@) == Some(file@.subrange(s as int, e as int)),
                            s <= e <= cs@.len(),
                            ps <= pe <= s,
                            pe - ps == e - s,
                            i <= e - s,
                            forall|k: int|
                                0 <= k < i ==> #[trigger] cs@.subrange(s as int, e as int)[k]
                                    == cs@.subrange(ps as int, pe as int)[k],
                        decreases e - s - i,
                    {
                        if cs[s + i] != cs[ps + i] {
                            assert(file@.subrange(s as int, e as int)[i as int] != file@.subrange(ps as int, pe as int)[i as int]);
                            return false;
                        }
                        assert(cs@.subrange(s as int, e as int)[i as int] == cs@[s + i]);
                        assert(cs@.subrange(ps as int, pe as int)[i as int] == cs@[ps + i]);
                        i = i + 1;
                    }
                    assert(file@.subrange(s as int, e as int) =~= file@.subrange(ps as int, pe as int));
                    true
                },
                None => false,
            }
        },
        None => false,
    }
}

/// Where the extension of the name held in `p[s..e]` starts, if it has one.
pub fn extension_start(p: &Vec<char>, s: usize, e: usize) -> (r: Option<usize>)
    requires
        s <= e <= p@.len(),
    ensures
        r matches Some(x) ==> s < x <= e && name_extension(p@.subrange(s as int, e as int))
            == Some(p@.subrange(x as int, e as int)),
        r is None ==> name_extension(p@.subrange(s as int, e as int)) is None,
{
    let mut d: usize = e;
    while d > s && p[d - 1] != '.'
        invariant
            s <= d <= e <= p@.len(),
            last_dot(p@.subrange(s as int, e as int)) == last_dot(p@.subrange(s as int, d as int)),
        decreases d,
    {
        assert(p@.subrange(s as int, d as int).drop_last() =~= p@.subrange(s as int, d - 1));
        d = d - 1;
    }
    if d - s <= 1 {
        None
    } else {
        assert(p@.subrange(s as int, e as int).subrange(d - s, e - s) =~= p@.subrange(
            d as int,
            e as int,
        ));
        Some(d)
    }
}

/// Whether `p[from..to]` holds the characters of `t`.
pub fn run_equals(p: &Vec<char>, from: usize, to: usize, t: &Vec<char>) -> (r: bool)
    requires
        from <= to <= p@.len(),
    ensures
        r == (p@.subrange(from as int, to as int) == t@),
{
    if to - from != t.len() {
        assert(p@.subrange(from as int, to as int).len() != t@.len());
        return false;
    }
    let mut i: usize = 0;
    while i < t.len()
        invariant
            from <= to <= p@.len(),
            to - from == t@.len(),
            i <= t@.len(),
            forall|k: int|
                0 <= k < i ==> #[trigger] p@.subrange(from as int, to as int)[k] == t@[k],
        decreases t.len() - i,
    {
        assert(p@.subrange(from as int, to as int)[i as int] == p@[from + i]);
        if p[from + i] != t[i] {
            return false;
        }
        i = i + 1;
    }
    assert(p@.subrange(from as int, to as int) =~= t@);
    true
}

} // verus!
