//! Text helpers for the path strings the pipeline works on.
//!
//! A media path is modelled as a string; `/` separates directories and the
//! extension is whatever follows the last `.` of the file name.  The *base*
//! of a path (the path without its extension) is the merge key that pairs a
//! photo with its companion video.

use vstd::prelude::*;
use vstd::string::*;

verus! {

/// True when two string slices hold the same characters.
pub fn str_eq(a: &str, b: &str) -> (r: bool)
    ensures
        r == (a@ == b@),
{
    let a_len = a.unicode_len();
    let b_len = b.unicode_len();
    if a_len != b_len {
        return false;
    }
    let mut i: usize = 0;
    while i < a_len
        invariant
            a_len == a@.len(),
            b_len == b@.len(),
            a_len == b_len,
            i <= a_len,
            forall|j: int| 0 <= j < i ==> a@[j] == b@[j],
        decreases a_len - i,
    {
        if a.get_char(i) != b.get_char(i) {
            return false;
        }
        i = i + 1;
    }
    proof {
        assert(a@ =~= b@);
    }
    true
}

/// Index of the last occurrence of `c` in `s`, or `-1` when `c` does not
/// occur.
pub open spec fn last_pos(s: Seq<char>, c: char) -> int
    decreases s.len(),
{
    if s.len() == 0 {
        -1
    } else if s[s.len() - 1] == c {
        s.len() - 1
    } else {
        last_pos(s.drop_last(), c)
    }
}

proof fn lemma_last_pos_push(t: Seq<char>, x: char, c: char)
    ensures
        last_pos(t.push(x), c) == if x == c {
            t.len() as int
        } else {
            last_pos(t, c)
        },
{
    let p = t.push(x);
    assert(p.len() == t.len() + 1);
    assert(p[p.len() - 1] == x);
    if x != c {
        assert(p.drop_last() =~= t);
    }
}

/// Where the extension begins: one past the last `.` that follows the last
/// `/`; the whole length when the file name has no extension.
pub open spec fn base_cut(s: Seq<char>) -> int {
    if last_pos(s, '.') > last_pos(s, '/') {
        last_pos(s, '.')
    } else {
        s.len() as int
    }
}

/// The path without its extension: the merge key of a media file.
pub open spec fn base_of(s: Seq<char>) -> Seq<char> {
    s.subrange(0, base_cut(s))
}

/// The directory part of a path: everything before the last `/`, empty when
/// the path has no `/`.
pub open spec fn dir_of(s: Seq<char>) -> Seq<char> {
    if last_pos(s, '/') >= 0 {
        s.subrange(0, last_pos(s, '/'))
    } else {
        Seq::<char>::empty()
    }
}

/// The file-name part of a path: everything after the last `/`.
pub open spec fn file_name_of(s: Seq<char>) -> Seq<char> {
    s.subrange(last_pos(s, '/') + 1, s.len() as int)
}

/// The extension of a path, without its dot; empty when there is none.
pub open spec fn ext_of(s: Seq<char>) -> Seq<char> {
    if last_pos(s, '.') > last_pos(s, '/') {
        s.subrange(last_pos(s, '.') + 1, s.len() as int)
    } else {
        Seq::<char>::empty()
    }
}

/// Index of the last occurrence of `c` in `s`, if any.
pub fn find_last(s: &str, c: char) -> (r: Option<usize>)
    ensures
        match r {
            Some(i) => last_pos(s@, c) == i as int && i < s@.len(),
            None => last_pos(s@, c) == -1,
        },
{
    let len = s.unicode_len();
    let mut best: Option<usize> = None;
    let mut i: usize = 0;
    proof {
        assert(s@.subrange(0, 0) =~= Seq::<char>::empty());
    }
    while i < len
        invariant
            len == s@.len(),
            i <= len,
            match best {
                Some(b) => last_pos(s@.subrange(0, i as int), c) == b as int && b < i,
                None => last_pos(s@.subrange(0, i as int), c) == -1,
            },
        decreases len - i,
    {
        let ch = s.get_char(i);
        proof {
            assert(s@.subrange(0, i + 1) =~= s@.subrange(0, i as int).push(s@[i as int]));
            lemma_last_pos_push(s@.subrange(0, i as int), s@[i as int], c);
        }
        if ch == c {
            best = Some(i);
        }
        i = i + 1;
    }
    proof {
        assert(s@.subrange(0, len as int) =~= s@);
    }
    best
}

/// The path without its extension.
pub fn base(s: &str) -> (r: String)
    ensures
        r@ == base_of(s@),
{
    let len = s.unicode_len();
    let dot = find_last(s, '.');
    let slash = find_last(s, '/');
    let cut: usize = match (dot, slash) {
        (Some(d), Some(sl)) => if d > sl {
            d
        } else {
            len
        },
        (Some(d), None) => d,
        _ => len,
    };
    let sub = s.substring_char(0, cut);
    sub.to_owned()
}

/// The directory part of a path.
pub fn dir_name(s: &str) -> (r: String)
    ensures
        r@ == dir_of(s@),
{
    match find_last(s, '/') {
        Some(sl) => {
            let sub = s.substring_char(0, sl);
            sub.to_owned()
        },
        None => String::new(),
    }
}

/// The file-name part of a path.
pub fn file_name(s: &str) -> (r: String)
    ensures
        r@ == file_name_of(s@),
{
    let len = s.unicode_len();
    match find_last(s, '/') {
        Some(sl) => {
            let sub = s.substring_char(sl + 1, len);
            sub.to_owned()
        },
        None => {
            proof {
                assert(s@.subrange(0, s@.len() as int) =~= s@);
            }
            let sub = s.substring_char(0, len);
            sub.to_owned()
        },
    }
}

/// The extension of a path, without its dot; empty when there is none.
pub fn extension(s: &str) -> (r: String)
    ensures
        r@ == ext_of(s@),
{
    let len = s.unicode_len();
    let dot = find_last(s, '.');
    let slash = find_last(s, '/');
    match (dot, slash) {
        (Some(d), Some(sl)) => if d > sl {
            let sub = s.substring_char(d + 1, len);
            sub.to_owned()
        } else {
            String::new()
        },
        (Some(d), None) => {
            let sub = s.substring_char(d + 1, len);
            sub.to_owned()
        },
        _ => String::new(),
    }
}

/// Lower-case form of an ASCII capital letter; any other character is kept.
pub open spec fn lower_char(c: char) -> char {
    match c {
        'A' => 'a',
        'B' => 'b',
        'C' => 'c',
        'D' => 'd',
        'E' => 'e',
        'F' => 'f',
        'G' => 'g',
        'H' => 'h',
        'I' => 'i',
        'J' => 'j',
        'K' => 'k',
        'L' => 'l',
        'M' => 'm',
        'N' => 'n',
        'O' => 'o',
        'P' => 'p',
        'Q' => 'q',
        'R' => 'r',
        'S' => 's',
        'T' => 't',
        'U' => 'u',
        'V' => 'v',
        'W' => 'w',
        'X' => 'x',
        'Y' => 'y',
        'Z' => 'z',
        _ => c,
    }
}

/// A string lowered character by character.
pub open spec fn lower(s: Seq<char>) -> Seq<char> {
    s.map_values(|c: char| lower_char(c))
}

/// Lower-case form of an ASCII capital letter; any other character is kept.
pub fn lower_char_exec(c: char) -> (r: char)
    ensures
        r == lower_char(c),
{
    match c {
        'A' => 'a',
        'B' => 'b',
        'C' => 'c',
        'D' => 'd',
        'E' => 'e',
        'F' => 'f',
        'G' => 'g',
        'H' => 'h',
        'I' => 'i',
        'J' => 'j',
        'K' => 'k',
        'L' => 'l',
        'M' => 'm',
        'N' => 'n',
        'O' => 'o',
        'P' => 'p',
        'Q' => 'q',
        'R' => 'r',
        'S' => 's',
        'T' => 't',
        'U' => 'u',
        'V' => 'v',
        'W' => 'w',
        'X' => 'x',
        'Y' => 'y',
        'Z' => 'z',
        _ => c,
    }
}

/// True when `a`, lowered letter by letter, reads exactly as `b`.
pub fn eq_lower(a: &str, b: &str) -> (r: bool)
    ensures
        r == (lower(a@) == b@),
{
    let a_len = a.unicode_len();
    let b_len = b.unicode_len();
    if a_len != b_len {
        return false;
    }
    let mut i: usize = 0;
    while i < a_len
        invariant
            a_len == a@.len(),
            b_len == b@.len(),
            a_len == b_len,
            i <= a_len,
            forall|j: int| 0 <= j < i ==> lower_char(a@[j]) == b@[j],
        decreases a_len - i,
    {
        if lower_char_exec(a.get_char(i)) != b.get_char(i) {
            return false;
        }
        i = i + 1;
    }
    proof {
        assert(lower(a@) =~= b@);
    }
    true
}

} // verus!
