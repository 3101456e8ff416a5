//! Naming helpers for asset files.
use vstd::prelude::*;

verus! {

/// The final component of a path, as `std::path::Path::file_name` reads it.
pub uninterp spec fn file_name_of(path: Seq<char>) -> Option<Seq<char>>;

/// The upper-case form of a character, as `char::to_uppercase` gives it.
pub uninterp spec fn upper_of(c: char) -> Seq<char>;

/// Relies on `std::path::Path::file_name`: the last component of the path,
/// none for a path that ends in `..` or is a root; it depends on the path's
/// text alone.
#[verifier::external_body]
fn path_file_name(path: &str) -> (r: Option<String>)
    ensures
        match file_name_of(path@) {
            Some(n) => r is Some && r->0@ == n,
            None => r is None,
        },
{
    std::path::Path::new(path).file_name().map(|n| n.to_string_lossy().into_owned())
}

/// Relies on `char::to_uppercase`: the characters of the upper-case form of
/// `c`, which depend on `c` alone.
#[verifier::external_body]
fn uppercase(c: char) -> (r: String)
    ensures
        r@ == upper_of(c),
{
    c.to_uppercase().collect()
}

/// The characters of `s` before its first `.`.
pub open spec fn stem_of(s: Seq<char>) -> Seq<char>
    decreases s.len(),
{
    if s.len() == 0 || s[0] == '.' {
        Seq::empty()
    } else {
        seq![s[0]] + stem_of(s.drop_first())
    }
}

/// A name with its dashes turned into spaces.
pub open spec fn dashes_to_spaces(s: Seq<char>) -> Seq<char> {
    s.map_values(|c: char| if c == '-' { ' ' } else { c })
}

/// A display name: dashes become spaces and the first character is upper-cased.
pub open spec fn display_name(s: Seq<char>) -> Seq<char> {
    let r = dashes_to_spaces(s);
    if r.len() == 0 {
        Seq::empty()
    } else {
        upper_of(r[0]) + r.drop_first()
    }
}

/// The position of the first `.` of `s`, or its length.
fn stem_len(s: &str) -> (r: usize)
    ensures
        r <= s@.len(),
        s@.subrange(0, r as int) == stem_of(s@),
{
    let n = s.unicode_len();
    let mut i: usize = 0;
    let mut found = false;
    while i < n && !found
        invariant
            n == s@.len(),
            i <= n,
            forall|j: int| 0 <= j < i ==> s@[j] != '.',
            found ==> i < n && s@[i as int] == '.',
        decreases n - i + if found { 0int } else { 1int },
    {
        if s.get_char(i) == '.' {
            found = true;
        } else {
            i = i + 1;
        }
    }
    proof {
        lemma_stem_prefix(s@, i as int);
    }
    i
}

proof fn lemma_stem_prefix(s: Seq<char>, i: int)
    requires
        0 <= i <= s.len(),
        forall|j: int| 0 <= j < i ==> s[j] != '.',
        i == s.len() || s[i] == '.',
    ensures
        s.subrange(0, i) == stem_of(s),
    decreases i,
{
    if i > 0 {
        lemma_stem_prefix(s.drop_first(), i - 1);
        assert(s.subrange(0, i) =~= seq![s[0]] + s.drop_first().subrange(0, i - 1));
    } else {
        assert(s.subrange(0, i) =~= Seq::<char>::empty());
    }
}

/// The file name of a path up to its first `.`; none when the path names no file.
pub fn get_file_name(path: &str) -> (r: Option<String>)
    ensures
        match file_name_of(path@) {
            Some(n) => r is Some && r->0@ == stem_of(n),
            None => r is None,
        },
{
    match path_file_name(path) {
        None => None,
        Some(name) => {
            let s = name.as_str();
            let end = stem_len(s);
            Some(s.substring_char(0, end).to_owned())
        },
    }
}

/// Turns a file-style name into a display name: dashes become spaces and the
/// first character is upper-cased.
pub fn format_name(name: String) -> (r: String)
    ensures
        r@ == display_name(name@),
{
    let s = name.as_str();
    let n = s.unicode_len();
    let mut out = String::new();
    if n == 0 {
        return out;
    }
    let first = s.get_char(0);
    let head = if first == '-' {
        ' '
    } else {
        first
    };
    out.append(uppercase(head).as_str());
    let ghost r = dashes_to_spaces(s@);
    let mut i: usize = 1;
    let mut start: usize = 1;
    while i < n
        invariant
            n == s@.len(),
            r == dashes_to_spaces(s@),
            1 <= start <= i <= n,
            forall|j: int| start <= j < i ==> s@[j] != '-',
            out@ == upper_of(r[0]) + r.subrange(1, start as int),
        decreases n - i,
    {
        if s.get_char(i) == '-' {
            out.append(s.substring_char(start, i));
            out.append(" ");
            proof {
                reveal_strlit(" ");
                assert(r.subrange(1, i + 1) =~= r.subrange(1, start as int) + s@.subrange(start as int, i as int) + " "@);
            }
            start = i + 1;
        }
        i = i + 1;
    }
    out.append(s.substring_char(start, n));
    assert(r.subrange(1, n as int) =~= r.subrange(1, start as int) + s@.subrange(start as int, n as int));
    assert(r.drop_first() =~= r.subrange(1, n as int));
    out
}

} // verus!
