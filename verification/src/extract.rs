//! The metadata extractor's pure half: turning a path and the plain values
//! read from filesystem metadata into a normalized record. Reading the
//! filesystem itself is the embedding application's part; it hands sizes
//! and timestamps in, each file independent of the rest.

use vstd::prelude::*;
use vstd::string::*;

use crate::records::FileInfo;

verus! {

/// The suffix of `s` after the last occurrence of `c`; all of `s` when `c`
/// does not occur.
pub open spec fn spec_after_last(s: Seq<char>, c: char) -> Seq<char>
    decreases s.len(),
{
    if s.len() == 0 {
        s
    } else if s.last() == c {
        Seq::empty()
    } else {
        spec_after_last(s.drop_last(), c).push(s.last())
    }
}

/// The name of a path: the component after the last separator, or
/// `"Unknown"` when that component is empty.
pub open spec fn spec_file_name(path: Seq<char>) -> Seq<char> {
    if spec_after_last(path, '/').len() == 0 {
        "Unknown"@
    } else {
        spec_after_last(path, '/')
    }
}

/// The extension of a name: what follows the last dot, unless the name has
/// no dot or only a leading one (a bare hidden file); then empty.
pub open spec fn spec_extension(name: Seq<char>) -> Seq<char> {
    if !name.contains('.') {
        Seq::empty()
    } else if name.len() - spec_after_last(name, '.').len() - 1 == 0 {
        Seq::empty()
    } else {
        spec_after_last(name, '.')
    }
}

/// The extension the extractor derives from a whole path.
pub open spec fn spec_file_type(path: Seq<char>) -> Seq<char> {
    spec_extension(spec_after_last(path, '/'))
}

proof fn lemma_after_last_at(s: Seq<char>, c: char, d: int)
    requires
        0 <= d < s.len(),
        s[d] == c,
        forall|t: int| d < t < s.len() ==> s[t] != c,
    ensures
        spec_after_last(s, c) == s.subrange(d + 1, s.len() as int),
    decreases s.len(),
{
    if d == s.len() - 1 {
        assert(s.last() == c);
        assert(spec_after_last(s, c) =~= s.subrange(d + 1, s.len() as int));
    } else {
        assert(s.last() != c);
        lemma_after_last_at(s.drop_last(), c, d);
        assert(s.drop_last().subrange(d + 1, s.len() - 1) =~= s.subrange(d + 1, s.len() - 1));
        assert(spec_after_last(s, c) =~= s.subrange(d + 1, s.len() as int));
    }
}

proof fn lemma_after_last_absent(s: Seq<char>, c: char)
    requires
        forall|t: int| 0 <= t < s.len() ==> s[t] != c,
    ensures
        spec_after_last(s, c) == s,
    decreases s.len(),
{
    if s.len() > 0 {
        lemma_after_last_absent(s.drop_last(), c);
        assert(spec_after_last(s, c) =~= s);
    }
}

/// The position just after the last occurrence of `c`, or zero when `c`
/// does not occur; the suffix from there is `spec_after_last` unless `c`
/// never occurs.
fn find_suffix_start(s: &str, c: char, len: usize) -> (r: (usize, bool))
    requires
        len == s@.len(),
    ensures
        r.1 ==> 0 < r.0 <= len && s@[r.0 - 1] == c && (forall|t: int|
            r.0 <= t < s@.len() ==> s@[t] != c) && spec_after_last(s@, c) == s@.subrange(
            r.0 as int,
            s@.len() as int,
        ),
        !r.1 ==> r.0 == 0 && (forall|t: int| 0 <= t < s@.len() ==> s@[t] != c)
            && spec_after_last(s@, c) == s@,
{
    let mut i: usize = len;
    while i > 0
        invariant
            len == s@.len(),
            i <= len,
            forall|t: int| i <= t < s@.len() ==> s@[t] != c,
        decreases i,
    {
        if s.get_char(i - 1) == c {
            proof {
                lemma_after_last_at(s@, c, i - 1);
            }
            return (i, true);
        }
        i = i - 1;
    }
    proof {
        lemma_after_last_absent(s@, c);
    }
    (0, false)
}

/// Normalizes one filesystem entry into a record: the name is the path's
/// final component (`"Unknown"` when empty), the type its extension, and
/// unreadable timestamps default to zero rather than failing the record.
/// The identifier stays unset until the index assigns one.
pub fn entry_to_file_info(
    path: String,
    size: u64,
    created_at: Option<i64>,
    modified_at: Option<i64>,
) -> (f: FileInfo)
    ensures
        f.path@ == path@,
        f.name@ == spec_file_name(path@),
        f.file_type@ == spec_file_type(path@),
        f.size == size,
        f.created_at == (match created_at {
            Some(t) => t,
            None => 0,
        }),
        f.modified_at == (match modified_at {
            Some(t) => t,
            None => 0,
        }),
        f.id is None,
        f.last_opened_at is None,
        f.thumbnail_path is None,
        f.finder_tags@.len() == 0,
        f.finder_colors@.len() == 0,
{
    let len = path.as_str().unicode_len();
    let (start, _) = find_suffix_start(path.as_str(), '/', len);
    let raw_name = path.as_str().substring_char(start, len);
    let name: String = if raw_name.unicode_len() == 0 {
        "Unknown".to_owned()
    } else {
        raw_name.to_owned()
    };
    let raw_len = raw_name.unicode_len();
    let (dot, has_dot) = find_suffix_start(raw_name, '.', raw_len);
    let file_type: String = if !has_dot || dot == 1 {
        proof {
            if !has_dot {
                assert(!raw_name@.contains('.')) by {
                    if raw_name@.contains('.') {
                        let w = choose|w: int|
                            0 <= w < raw_name@.len() && raw_name@[w] == '.';
                        assert(false);
                    }
                }
            } else {
                assert(raw_name@.len() - spec_after_last(raw_name@, '.').len() - 1 == 0);
            }
        }
        String::new()
    } else {
        proof {
            assert(raw_name@.contains('.')) by {
                assert(raw_name@[dot - 1] == '.');
            }
            assert(raw_name@.len() - spec_after_last(raw_name@, '.').len() - 1 == dot - 1);
        }
        raw_name.substring_char(dot, raw_len).to_owned()
    };
    let created = match created_at {
        Some(t) => t,
        None => 0,
    };
    let modified = match modified_at {
        Some(t) => t,
        None => 0,
    };
    proof {
        assert(raw_name@ == spec_after_last(path@, '/'));
    }
    FileInfo {
        id: None,
        path,
        name,
        file_type,
        size,
        created_at: created,
        modified_at: modified,
        last_opened_at: None,
        thumbnail_path: None,
        finder_tags: Vec::new(),
        finder_colors: Vec::new(),
    }
}

} // verus!
