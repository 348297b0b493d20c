//! Path strings and their structure: separators, extensions, file stems.
//!
//! Paths are modelled as plain strings. A path is absolute when it begins
//! with the root separator `/`; its file name is everything after the last
//! separator; its extension is everything after the last dot of the file
//! name, provided a non-empty stem precedes that dot.
use vstd::prelude::*;

verus! {

/// True when a path string denotes an absolute filesystem location.
pub open spec fn is_absolute(p: Seq<char>) -> bool {
    p.len() > 0 && p[0] == '/'
}

/// Whether the given path string is absolute (begins with the root separator).
pub fn path_is_absolute(p: &str) -> (r: bool)
    ensures
        r == is_absolute(p@),
{
    p.unicode_len() > 0 && p.get_char(0) == '/'
}

/// The last position of `c` in `s`, if `c` occurs at all.
pub open spec fn last_index_of(s: Seq<char>, c: char) -> Option<int>
    decreases s.len(),
{
    if s.len() == 0 {
        None
    } else if s[s.len() - 1] == c {
        Some(s.len() - 1)
    } else {
        last_index_of(s.drop_last(), c)
    }
}

/// The result of `last_index_of` is a position of `c`, and no later
/// position holds `c`; `None` means `c` does not occur.
pub proof fn lemma_last_index_of(s: Seq<char>, c: char)
    ensures
        match last_index_of(s, c) {
            Some(i) => 0 <= i < s.len() && s[i] == c && (forall|j: int|
                i < j < s.len() ==> s[j] != c),
            None => forall|j: int| 0 <= j < s.len() ==> s[j] != c,
        },
    decreases s.len(),
{
    if s.len() > 0 && s[s.len() - 1] != c {
        lemma_last_index_of(s.drop_last(), c);
        assert(forall|j: int| 0 <= j < s.len() - 1 ==> s[j] == s.drop_last()[j]);
    }
}

/// Equality of two string slices, decided character by character.
pub fn str_eq(a: &str, b: &str) -> (r: bool)
    ensures
        r == (a@ == b@),
{
    let a_len = a.unicode_len();
    let b_len = b.unicode_len();
    if a_len != b_len {
        assert(a@ != b@);
        return false;
    }
    let mut i: usize = 0;
    while i < a_len
        invariant
            i <= a_len,
            a_len == a@.len(),
            b_len == b@.len(),
            a_len == b_len,
            forall|j: int| 0 <= j < i ==> a@[j] == b@[j],
        decreases a_len - i,
    {
        if a.get_char(i) != b.get_char(i) {
            assert(a@ != b@);
            return false;
        }
        i += 1;
    }
    assert(a@ =~= b@);
    true
}

/// The last position of `c` in `s`, scanned from the end.
pub fn find_last(s: &str, c: char) -> (r: Option<usize>)
    ensures
        match r {
            Some(i) => last_index_of(s@, c) == Some(i as int),
            None => last_index_of(s@, c) is None,
        },
{
    let len = s.unicode_len();
    let mut i: usize = len;
    assert(s@.take(len as int) =~= s@);
    while i > 0
        invariant
            i <= len,
            len == s@.len(),
            last_index_of(s@, c) == last_index_of(s@.take(i as int), c),
        decreases i,
    {
        let ch = s.get_char(i - 1);
        proof {
            assert(s@.take(i as int).drop_last() =~= s@.take(i - 1));
            assert(s@.take(i as int)[i - 1] == s@[i - 1]);
        }
        if ch == c {
            assert(last_index_of(s@.take(i as int), c) == Some(i - 1));
            return Some(i - 1);
        }
        i -= 1;
    }
    assert(s@.take(0) =~= Seq::<char>::empty());
    None
}

/// The file name of a path: everything after the last separator, or the
/// whole path when it holds no separator.
pub open spec fn file_name_of(p: Seq<char>) -> Seq<char> {
    match last_index_of(p, '/') {
        None => p,
        Some(i) => p.skip(i + 1),
    }
}

/// The extension of a path: everything after the last dot of its file
/// name, provided that dot follows a non-empty stem.
pub open spec fn extension_of(p: Seq<char>) -> Option<Seq<char>> {
    let n = file_name_of(p);
    match last_index_of(n, '.') {
        Some(i) => if i > 0 {
            Some(n.skip(i + 1))
        } else {
            None
        },
        None => None,
    }
}

/// The file stem of a path: its file name with the extension cut off, or
/// `None` when the file name is empty.
pub open spec fn file_stem_of(p: Seq<char>) -> Option<Seq<char>> {
    let n = file_name_of(p);
    if n.len() == 0 {
        None
    } else {
        match last_index_of(n, '.') {
            Some(i) => if i > 0 {
                Some(n.take(i))
            } else {
                Some(n)
            },
            None => Some(n),
        }
    }
}

/// The file name of `p`, as a slice of it.
pub fn file_name(p: &str) -> (r: &str)
    ensures
        r@ == file_name_of(p@),
{
    let len = p.unicode_len();
    match find_last(p, '/') {
        None => p,
        Some(i) => {
            proof {
                lemma_last_index_of(p@, '/');
                assert(p@.subrange(i + 1, len as int) =~= p@.skip(i + 1));
            }
            p.substring_char(i + 1, len)
        },
    }
}

/// The extension of `p`, when it has one.
pub fn extension(p: &str) -> (r: Option<&str>)
    ensures
        match r {
            Some(e) => extension_of(p@) == Some(e@),
            None => extension_of(p@) is None,
        },
{
    let n = file_name(p);
    let n_len = n.unicode_len();
    match find_last(n, '.') {
        Some(i) => if i > 0 {
            proof {
                lemma_last_index_of(n@, '.');
                assert(n@.subrange(i + 1, n_len as int) =~= n@.skip(i + 1));
            }
            Some(n.substring_char(i + 1, n_len))
        } else {
            None
        },
        None => None,
    }
}

/// The file stem of `p`, when its file name is not empty.
pub fn file_stem(p: &str) -> (r: Option<&str>)
    ensures
        match r {
            Some(st) => file_stem_of(p@) == Some(st@),
            None => file_stem_of(p@) is None,
        },
{
    let n = file_name(p);
    let n_len = n.unicode_len();
    if n_len == 0 {
        return None;
    }
    match find_last(n, '.') {
        Some(i) => if i > 0 {
            proof {
                lemma_last_index_of(n@, '.');
                assert(n@.subrange(0, i as int) =~= n@.take(i as int));
            }
            Some(n.substring_char(0, i))
        } else {
            Some(n)
        },
        None => Some(n),
    }
}

/// A path joined under a base directory, with a single separator between.
pub open spec fn joined(base: Seq<char>, rel: Seq<char>) -> Seq<char> {
    base + seq!['/'] + rel
}

/// Joins `rel` under the directory `base`.
pub fn join_under(base: &str, rel: &str) -> (r: String)
    ensures
        r@ == joined(base@, rel@),
{
    proof {
        reveal_strlit("/");
    }
    let mut r = String::from_str(base);
    r.append("/");
    r.append(rel);
    assert(r@ =~= joined(base@, rel@));
    r
}

/// A path with one more extension appended after a dot separator.
pub open spec fn with_appended_ext(p: Seq<char>, ext: Seq<char>) -> Seq<char> {
    p + seq!['.'] + ext
}

/// Appends `.ext` to the path `p`.
pub fn append_ext(p: &str, ext: &str) -> (r: String)
    ensures
        r@ == with_appended_ext(p@, ext@),
{
    proof {
        reveal_strlit(".");
    }
    let mut r = String::from_str(p);
    r.append(".");
    r.append(ext);
    assert(r@ =~= with_appended_ext(p@, ext@));
    r
}

/// An absolute path with its leading root separator cut off, as stored in
/// the backup archive; any other path is kept as it is.
pub open spec fn root_stripped(p: Seq<char>) -> Seq<char> {
    if is_absolute(p) {
        p.skip(1)
    } else {
        p
    }
}

/// Cuts the leading root separator off an absolute path.
pub fn strip_root(p: &str) -> (r: &str)
    ensures
        r@ == root_stripped(p@),
{
    let len = p.unicode_len();
    if path_is_absolute(p) {
        proof {
            assert(p@.subrange(1, len as int) =~= p@.skip(1));
        }
        p.substring_char(1, len)
    } else {
        p
    }
}

/// A snapshot of the part of the filesystem a resolution step may consult:
/// the set of paths known to exist.
pub struct FsView {
    files: Vec<String>,
}

impl FsView {
    /// The set of existing paths this view holds.
    pub closed spec fn view(&self) -> Set<Seq<char>> {
        Set::new(|p: Seq<char>| exists|i: int| 0 <= i < self.files@.len() && self.files@[i]@ == p)
    }

    /// An empty view: no path exists.
    pub fn empty() -> (r: FsView)
        ensures
            r@ =~= Set::<Seq<char>>::empty(),
    {
        FsView { files: Vec::new() }
    }

    /// Records that the path `p` exists.
    pub fn record(&mut self, p: String)
        ensures
            final(self)@ =~= old(self)@.insert(p@),
    {
        let ghost before = self.files@;
        self.files.push(p);
        proof {
            let after = self.files@;
            assert forall|q: Seq<char>| old(self)@.insert(p@).contains(q) implies self@.contains(q) by {
                if q == p@ {
                    assert(after[after.len() - 1]@ == q);
                } else {
                    let i = choose|i: int| 0 <= i < before.len() && before[i]@ == q;
                    assert(after[i]@ == q);
                }
            }
            assert forall|q: Seq<char>| self@.contains(q) implies old(self)@.insert(p@).contains(q) by {
                let i = choose|i: int| 0 <= i < after.len() && after[i]@ == q;
                if i < before.len() {
                    assert(before[i]@ == q);
                } else {
                    assert(q == p@);
                }
            }
        }
    }

    /// Whether the path `p` exists in this view.
    pub fn contains(&self, p: &str) -> (r: bool)
        ensures
            r == self@.contains(p@),
    {
        let n = self.files.len();
        let mut i: usize = 0;
        while i < n
            invariant
                i <= n,
                n == self.files@.len(),
                forall|j: int| 0 <= j < i ==> self.files@[j]@ != p@,
            decreases n - i,
        {
            if str_eq(self.files[i].as_str(), p) {
                return true;
            }
            i += 1;
        }
        false
    }
}

} // verus!
