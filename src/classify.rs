use vstd::prelude::*;
use vstd::string::StrSliceExecFns;

verus! {

/// Index of the last occurrence of `c` in `s`, or -1 when there is none.
pub open spec fn last_index_of(s: Seq<char>, c: char) -> int
    decreases s.len(),
{
    if s.len() == 0 {
        -1
    } else if s.last() == c {
        s.len() - 1
    } else {
        last_index_of(s.drop_last(), c)
    }
}

/// The file name of a path: what follows its last `'/'`.
pub open spec fn file_name(path: Seq<char>) -> Seq<char> {
    path.subrange(last_index_of(path, '/') + 1, path.len() as int)
}

/// The extension of a path: what follows the last `'.'` of its file name. A
/// name without a `'.'`, or whose only `'.'` is its first character, has none.
pub open spec fn extension_of(path: Seq<char>) -> Option<Seq<char>> {
    let name = file_name(path);
    let d = last_index_of(name, '.');
    if d > 0 {
        Some(name.subrange(d + 1, name.len() as int))
    } else {
        None
    }
}

proof fn lemma_last_index_bounds(s: Seq<char>, c: char)
    ensures
        -1 <= last_index_of(s, c) < s.len(),
        last_index_of(s, c) >= 0 ==> s[last_index_of(s, c)] == c,
    decreases s.len(),
{
    if s.len() > 0 {
        lemma_last_index_bounds(s.drop_last(), c);
    }
}

/// The extension of `path`, without its dot.
pub fn extension(path: &str) -> (r: Option<String>)
    ensures
        r is Some <==> extension_of(path@) is Some,
        r is Some ==> r->0@ == extension_of(path@)->0,
{
    let n: usize = path.unicode_len();
    let ghost s = path@;
    // first index of the file name, and the last '.' in it so far
    let mut start: usize = 0;
    let mut has_dot: bool = false;
    let mut dot: usize = 0;
    let mut i: usize = 0;
    proof {
        assert(s.take(0) =~= Seq::<char>::empty());
        assert(s.take(0).subrange(0, 0) =~= Seq::<char>::empty());
    }
    for ch in it: path.chars()
        invariant
            n == s.len(),
            s == path@,
            it.seq() == s,
            i == it.index(),
            i <= n,
            start as int == last_index_of(s.take(i as int), '/') + 1,
            start <= i,
            has_dot == (last_index_of(s.subrange(start as int, i as int), '.') >= 0),
            has_dot ==> dot as int == start + last_index_of(s.subrange(start as int, i as int), '.'),
    {
        let ghost pre = s.take(i as int);
        let ghost name = s.subrange(start as int, i as int);
        proof {
            assert(s.take(i + 1).drop_last() =~= pre);
            assert(s.take(i + 1).last() == ch);
        }
        if ch == '/' {
            start = i + 1;
            has_dot = false;
            proof {
                assert(s.subrange(start as int, start as int) =~= Seq::<char>::empty());
            }
        } else {
            proof {
                assert(s.subrange(start as int, i + 1).drop_last() =~= name);
                assert(s.subrange(start as int, i + 1).last() == ch);
            }
            if ch == '.' {
                has_dot = true;
                dot = i;
            }
        }
        i = i + 1;
    }
    proof {
        assert(s.take(n as int) =~= s);
        assert(file_name(s) =~= s.subrange(start as int, n as int));
        lemma_last_index_bounds(s.subrange(start as int, n as int), '.');
    }
    if has_dot && dot > start {
        let e = path.substring_char(dot + 1, n);
        proof {
            let name = s.subrange(start as int, n as int);
            let d = last_index_of(name, '.');
            assert(name.subrange(d + 1, name.len() as int) =~= s.subrange(dot + 1, n as int));
        }
        Some(e.to_owned())
    } else {
        None
    }
}

} // verus!
