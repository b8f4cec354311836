//! Textual path manipulation.
//!
//! A path is treated as a plain sequence of characters. The file name is
//! the suffix after the last `/` (the whole path when there is none), and
//! the extension of a file name is the non-empty suffix after a last `.`
//! that is neither the first character (so a leading-dot name such as
//! `.config` has no extension) nor the last. Extensions are kept exactly
//! as written: no case folding, no normalization.

use vstd::prelude::*;

verus! {

/// The index of the last occurrence of `c` in `s`, or `-1` when `c` does
/// not occur.
pub open spec fn last_index_of(s: Seq<char>, c: char) -> int
    decreases s.len(),
{
    if s.len() == 0 {
        -1
    } else if s.last() == c {
        s.len() - 1
    } else {
        last_index_of(s.drop_last(), c)
    }
}

/// The suffix of `path` after its last `/`; the whole of `path` when it
/// holds no `/`.
pub open spec fn file_name_of(path: Seq<char>) -> Seq<char> {
    path.subrange(last_index_of(path, '/') + 1, path.len() as int)
}

/// A path names a file when something non-empty follows its last `/`.
pub open spec fn has_file_name(path: Seq<char>) -> bool {
    file_name_of(path).len() > 0
}

/// The suffix of a file name after its last `.`.
pub open spec fn extension_of(name: Seq<char>) -> Seq<char> {
    name.subrange(last_index_of(name, '.') + 1, name.len() as int)
}

/// A file name has an extension when a `.` stands strictly inside it,
/// with at least one character before the last `.` and one after it.
pub open spec fn has_extension(name: Seq<char>) -> bool {
    last_index_of(name, '.') > 0 && extension_of(name).len() > 0
}

/// `dir` and `name` joined with a single `/` separator.
pub open spec fn joined(dir: Seq<char>, name: Seq<char>) -> Seq<char> {
    dir + seq!['/'] + name
}

/// A path is absolute when it starts at the filesystem root.
pub open spec fn is_absolute(path: Seq<char>) -> bool {
    path.len() > 0 && path[0] == '/'
}

proof fn lemma_last_index_of_take_step(s: Seq<char>, c: char, i: int)
    requires
        0 <= i < s.len(),
    ensures
        last_index_of(s.take(i + 1), c) == if s[i] == c {
            i
        } else {
            last_index_of(s.take(i), c)
        },
{
    assert(s.take(i + 1).drop_last() =~= s.take(i));
    assert(s.take(i + 1).last() == s[i]);
}

/// Appending characters other than `c` does not move the last occurrence
/// of `c`.
pub proof fn lemma_last_index_of_append(a: Seq<char>, b: Seq<char>, c: char)
    requires
        !b.contains(c),
    ensures
        last_index_of(a + b, c) == last_index_of(a, c),
    decreases b.len(),
{
    if b.len() == 0 {
        assert(a + b =~= a);
    } else {
        assert(b.last() != c);
        assert((a + b).last() == b.last());
        assert((a + b).drop_last() =~= a + b.drop_last());
        assert(!b.drop_last().contains(c)) by {
            if b.drop_last().contains(c) {
                let j = choose|j: int| 0 <= j < b.drop_last().len() && b.drop_last()[j] == c;
                assert(b[j] == c);
            }
        }
        lemma_last_index_of_append(a, b.drop_last(), c);
    }
}

/// The file name of `joined(dir, name)` is `name` itself whenever `name`
/// holds no separator.
pub proof fn lemma_file_name_of_joined(dir: Seq<char>, name: Seq<char>)
    requires
        !name.contains('/'),
    ensures
        file_name_of(joined(dir, name)) == name,
{
    let whole = joined(dir, name);
    assert(whole =~= (dir + seq!['/']) + name);
    lemma_last_index_of_append(dir + seq!['/'], name, '/');
    assert((dir + seq!['/']).last() == '/');
    assert(last_index_of(dir + seq!['/'], '/') == dir.len());
    assert(file_name_of(whole) =~= name);
}

/// The index of the last occurrence of `c` in `s`, or `None` when `c`
/// does not occur.
pub fn last_occurrence(s: &str, c: char) -> (r: Option<usize>)
    ensures
        match r {
            Some(i) => i < s@.len() && last_index_of(s@, c) == i as int,
            None => last_index_of(s@, c) == -1,
        },
{
    let n = s.unicode_len();
    let mut i: usize = 0;
    let mut best: Option<usize> = None;
    assert(s@.take(0) =~= Seq::<char>::empty());
    while i < n
        invariant
            i <= n,
            n == s@.len(),
            match best {
                Some(b) => b < i && last_index_of(s@.take(i as int), c) == b as int,
                None => last_index_of(s@.take(i as int), c) == -1,
            },
        decreases n - i,
    {
        proof {
            lemma_last_index_of_take_step(s@, c, i as int);
        }
        if s.get_char(i) == c {
            best = Some(i);
        }
        i = i + 1;
    }
    proof {
        assert(s@.take(n as int) =~= s@);
    }
    best
}

/// The file name of `path`, or `None` for a degenerate path whose last
/// `/` ends it.
pub fn file_name(path: &str) -> (r: Option<String>)
    ensures
        has_file_name(path@) ==> r is Some && r.unwrap()@ == file_name_of(path@),
        !has_file_name(path@) ==> r is None,
{
    let n = path.unicode_len();
    let start: usize = match last_occurrence(path, '/') {
        Some(i) => i + 1,
        None => 0,
    };
    if start == n {
        None
    } else {
        Some(String::from_str(path.substring_char(start, n)))
    }
}

/// The extension of the file name `name`, or `None` when `name` has no
/// `.` strictly inside it or nothing follows the last `.`.
pub fn extension(name: &str) -> (r: Option<String>)
    ensures
        has_extension(name@) ==> r is Some && r.unwrap()@ == extension_of(name@),
        !has_extension(name@) ==> r is None,
{
    let n = name.unicode_len();
    match last_occurrence(name, '.') {
        None => None,
        Some(i) => {
            if i == 0 || i + 1 == n {
                None
            } else {
                Some(String::from_str(name.substring_char(i + 1, n)))
            }
        },
    }
}

/// `dir` and `name` joined with a single `/` separator.
pub fn join(dir: &str, name: &str) -> (r: String)
    ensures
        r@ == joined(dir@, name@),
{
    proof {
        reveal_strlit("/");
        assert("/"@ =~= seq!['/']);
    }
    let mut s = String::from_str(dir);
    s.append("/");
    s.append(name);
    proof {
        assert(s@ =~= joined(dir@, name@));
    }
    s
}

/// Whether `path` starts at the filesystem root.
pub fn is_absolute_path(path: &str) -> (r: bool)
    ensures
        r == is_absolute(path@),
{
    if path.unicode_len() == 0 {
        false
    } else {
        path.get_char(0) == '/'
    }
}

} // verus!
