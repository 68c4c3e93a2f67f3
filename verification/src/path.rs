//! Paths, as text with `/` between the names: those of Unix, where a path is absolute exactly if it
//! starts with `/`. Other systems have drives and further separators, which are no part of this.

use vstd::prelude::*;

verus! {

/// `name` looked up in the directory `base`. A name that starts at the root of the file system
/// stands for itself.
pub open spec fn spec_join(base: Seq<char>, name: Seq<char>) -> Seq<char> {
    if name.len() > 0 && name[0] == '/' {
        name
    } else if base.len() == 0 || base.last() == '/' {
        base + name
    } else {
        base.push('/') + name
    }
}

/// The path of `name` in the directory `base`.
pub fn join(base: &str, name: &str) -> (res: String)
    ensures
        res@ == spec_join(base@, name@),
{
    if !name.is_empty() && name.get_char(0) == '/' {
        return name.to_owned();
    }
    let n: usize = base.unicode_len();
    let mut res = base.to_owned();
    if n > 0 && base.get_char(n - 1) != '/' {
        res.append("/");
        proof {
            reveal_strlit("/");
        }
        assert(res@ =~= base@.push('/'));
    }
    res.append(name);
    res
}

/// What marks a file that is still being written.
pub const PART_EXTENSION: &'static str = "part";

/// `path` without the separators, and the `.` entries behind a separator, that it ends in.
pub open spec fn without_trailing(path: Seq<char>) -> Seq<char>
    decreases path.len(),
{
    if path.len() > 0 && path.last() == '/' {
        without_trailing(path.drop_last())
    } else if path.len() > 1 && path.last() == '.' && path[path.len() - 2] == '/' {
        without_trailing(path.drop_last())
    } else {
        path
    }
}

/// What follows the last separator in `path`.
pub open spec fn last_name(path: Seq<char>) -> Seq<char>
    decreases path.len(),
{
    if path.len() == 0 || path.last() == '/' {
        Seq::empty()
    } else {
        last_name(path.drop_last()).push(path.last())
    }
}

/// Whether `path` ends in the name of a file, as `/`, `.` and `..` do not.
pub open spec fn names_file(path: Seq<char>) -> bool {
    let name = last_name(without_trailing(path));
    name.len() > 0 && name != seq!['.'] && name != seq!['.', '.']
}

/// Where the file `dest` is kept while it is being written: beside `dest`, under its name with
/// a further `.part` extension. A path that names no file has no extension to change.
pub open spec fn spec_part_path(dest: Seq<char>) -> Seq<char> {
    if names_file(dest) {
        without_trailing(dest).push('.') + PART_EXTENSION@
    } else {
        dest
    }
}

/// The part path of `dest`.
pub fn part_path(dest: &str) -> (res: String)
    ensures
        res@ == spec_part_path(dest@),
{
    let mut end: usize = dest.unicode_len();
    proof {
        assert(dest@.take(dest@.len() as int) =~= dest@);
    }
    while end > 0 && (dest.get_char(end - 1) == '/' || (end > 1 && dest.get_char(end - 1) == '.'
        && dest.get_char(end - 2) == '/'))
        invariant
            end <= dest@.len(),
            without_trailing(dest@) == without_trailing(dest@.take(end as int)),
        decreases end,
    {
        proof {
            assert(dest@.take(end as int).drop_last() =~= dest@.take(end - 1));
        }
        end = end - 1;
    }
    let ghost kept = dest@.take(end as int);
    assert(without_trailing(dest@) == kept);
    let mut start: usize = end;
    proof {
        assert(kept.take(start as int) =~= kept);
        assert(kept.skip(start as int) =~= Seq::<char>::empty());
        assert(last_name(kept) =~= last_name(kept.take(start as int)) + kept.skip(start as int));
    }
    while start > 0 && dest.get_char(start - 1) != '/'
        invariant
            start <= end <= dest@.len(),
            kept == dest@.take(end as int),
            last_name(kept) == last_name(kept.take(start as int)) + kept.skip(start as int),
        decreases start,
    {
        proof {
            let longer = kept.take(start as int);
            assert(longer.drop_last() =~= kept.take(start - 1));
            assert(kept.skip(start - 1) =~= seq![longer.last()] + kept.skip(start as int));
            assert(last_name(kept) =~= last_name(kept.take(start - 1)) + kept.skip(start - 1));
        }
        start = start - 1;
    }
    assert(last_name(kept) =~= kept.skip(start as int));
    let is_dot = end - start == 1 && dest.get_char(start) == '.';
    let is_dot_dot = end - start == 2 && dest.get_char(start) == '.' && dest.get_char(start + 1)
        == '.';
    proof {
        let name = last_name(kept);
        assert(seq!['.'][0] == '.' && seq!['.', '.'][0] == '.' && seq!['.', '.'][1] == '.');
        assert(name.len() == end - start);
        assert(forall|i: int| 0 <= i < name.len() ==> name[i] == dest@[start + i]);
        assert(is_dot ==> name =~= seq!['.']);
        assert(name == seq!['.'] ==> is_dot);
        assert(is_dot_dot ==> name =~= seq!['.', '.']);
        assert(name == seq!['.', '.'] ==> is_dot_dot);
    }
    if start == end || is_dot || is_dot_dot {
        return dest.to_owned();
    }
    let mut res = dest.substring_char(0, end).to_owned();
    res.append(".");
    proof {
        reveal_strlit(".");
        assert(res@ =~= kept.push('.'));
    }
    res.append(PART_EXTENSION);
    res
}

/// A relative name in a directory: the path ends in the name, and starts with the directory.
pub proof fn lemma_join_relative(base: Seq<char>, name: Seq<char>)
    requires
        name.len() > 0,
        name[0] != '/',
    ensures
        spec_join(base, name).len() >= base.len() + name.len(),
        spec_join(base, name).take(base.len() as int) == base,
        spec_join(base, name).skip(spec_join(base, name).len() - name.len()) == name,
        spec_join(base, name).last() == name.last(),
{
    let path = spec_join(base, name);
    assert(path.take(base.len() as int) =~= base);
    assert(path.skip(path.len() - name.len()) =~= name);
}

/// Different relative names in one directory have different paths.
pub proof fn join_is_injective(base: Seq<char>, a: Seq<char>, b: Seq<char>)
    requires
        a.len() > 0 ==> a[0] != '/',
        b.len() > 0 ==> b[0] != '/',
        spec_join(base, a) == spec_join(base, b),
    ensures
        a == b,
{
    let path = spec_join(base, a);
    assert(path.skip(path.len() - a.len()) =~= a);
    assert(path.skip(path.len() - b.len()) =~= b);
}

/// The part path of a path that ends neither in a separator nor in a dot is the path itself
/// with `.part` behind it.
pub proof fn lemma_part_path(dest: Seq<char>)
    requires
        dest.len() > 0,
        dest.last() != '/',
        dest.last() != '.',
    ensures
        spec_part_path(dest) == dest.push('.') + PART_EXTENSION@,
{
    let name = last_name(dest);
    assert(name.last() == dest.last());
    assert(seq!['.'].last() == '.' && seq!['.', '.'].last() == '.');
}

} // verus!
