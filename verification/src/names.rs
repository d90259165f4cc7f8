//! Note filenames.
//!
//! A note is stored as `<timestamp-millis>-<sanitized-title>.md`.  This module
//! holds the sanitization of a title into a filename-safe form, the
//! construction of a fresh filename, the derivation of the display title from
//! a filename, and the construction of the filename a rename produces, with
//! the timestamp prefix preserved.

use crate::errors::NoteError;
use crate::numerals::dec_str;
use crate::numerals::u64_to_dec;
use vstd::prelude::*;
use vstd::string::StrSliceExecFns;
use vstd::string::StringExecFns;

verus! {

/// Characters that survive sanitization: ASCII letters, digits, `-` and `_`.
pub open spec fn is_safe_char(c: char) -> bool {
    (('a' as u32) <= (c as u32) && (c as u32) <= ('z' as u32)) || (('A' as u32) <= (c as u32)
        && (c as u32) <= ('Z' as u32)) || (('0' as u32) <= (c as u32) && (c as u32) <= ('9' as u32))
        || c == '-' || c == '_'
}

/// A safe character stands; every other character becomes `-`.
pub open spec fn sanitize_char(c: char) -> char {
    if is_safe_char(c) {
        c
    } else {
        '-'
    }
}

/// The sanitized form of a title: each character mapped by `sanitize_char`.
pub open spec fn sanitized(s: Seq<char>) -> Seq<char> {
    s.map_values(|c: char| sanitize_char(c))
}

/// Sanitization is idempotent: every character it produces is itself safe,
/// so applying it twice yields the same string as applying it once.
pub proof fn lemma_sanitized_idempotent(s: Seq<char>)
    ensures
        sanitized(sanitized(s)) == sanitized(s),
{
    assert forall|i: int| 0 <= i < s.len() implies sanitized(sanitized(s))[i] == sanitized(s)[i] by {
        assert(sanitized(s)[i] == sanitize_char(s[i]));
        assert(sanitize_char(sanitize_char(s[i])) == sanitize_char(s[i]));
    }
    assert(sanitized(sanitized(s)) =~= sanitized(s));
}

fn is_safe(c: char) -> (b: bool)
    ensures
        b == is_safe_char(c),
{
    let u = c as u32;
    (('a' as u32) <= u && u <= ('z' as u32)) || (('A' as u32) <= u && u <= ('Z' as u32)) || (('0'
        as u32) <= u && u <= ('9' as u32)) || c == '-' || c == '_'
}

/// Replaces every character of `title` outside ASCII letters, digits, `-`
/// and `_` with `-`, leaving the rest as they are.
pub fn sanitize_title(title: &str) -> (r: String)
    ensures
        r@ == sanitized(title@),
{
    let len = title.unicode_len();
    let mut out = String::new();
    let mut i: usize = 0;
    while i < len
        invariant
            i <= len,
            len == title@.len(),
            out@ =~= sanitized(title@.subrange(0, i as int)),
        decreases len - i,
    {
        let c = title.get_char(i);
        if is_safe(c) {
            let piece = title.substring_char(i, i + 1);
            out.append(piece);
        } else {
            proof {
                reveal_strlit("-");
            }
            out.append("-");
        }
        proof {
            let pre = title@.subrange(0, i as int);
            assert(title@.subrange(0, i as int + 1) =~= pre.push(title@[i as int]));
            assert(sanitized(pre.push(title@[i as int])) =~= sanitized(pre).push(
                sanitize_char(title@[i as int]),
            ));
        }
        i = i + 1;
    }
    proof {
        assert(title@.subrange(0, len as int) =~= title@);
    }
    out
}

/// The `.md` filename extension.
pub open spec fn md_suffix() -> Seq<char> {
    seq!['.', 'm', 'd']
}

/// Whether the last three characters of `s` are `.md`.
pub open spec fn ends_with_md(s: Seq<char>) -> bool {
    s.len() >= 3 && s[s.len() - 3] == '.' && s[s.len() - 2] == 'm' && s[s.len() - 1] == 'd'
}

/// `s` with every trailing `.md` removed.
pub open spec fn strip_md(s: Seq<char>) -> Seq<char>
    decreases s.len(),
{
    if ends_with_md(s) {
        strip_md(s.subrange(0, s.len() - 3))
    } else {
        s
    }
}

/// The index of the first `-` in `s`, or `-1` if there is none.
pub open spec fn first_dash(s: Seq<char>) -> int
    decreases s.len(),
{
    if s.len() == 0 {
        -1
    } else if s[0] == '-' {
        0
    } else {
        let r = first_dash(s.subrange(1, s.len() as int));
        if r < 0 {
            -1
        } else {
            r + 1
        }
    }
}

pub proof fn lemma_first_dash_at(s: Seq<char>, k: int)
    requires
        0 <= k < s.len(),
        s[k] == '-',
        forall|j: int| 0 <= j < k ==> s[j] != '-',
    ensures
        first_dash(s) == k,
    decreases s.len(),
{
    if k > 0 {
        lemma_first_dash_at(s.subrange(1, s.len() as int), k - 1);
    }
}

pub proof fn lemma_first_dash_none(s: Seq<char>)
    requires
        forall|j: int| 0 <= j < s.len() ==> s[j] != '-',
    ensures
        first_dash(s) == -1,
    decreases s.len(),
{
    if s.len() > 0 {
        lemma_first_dash_none(s.subrange(1, s.len() as int));
    }
}

/// Whether a filename names a Markdown file: it ends in `.md` and the `.`
/// does not open the name, as a leading `.` marks a hidden file without an
/// extension.
pub open spec fn is_md_name(s: Seq<char>) -> bool {
    s.len() >= 4 && s[s.len() - 3] == '.' && s[s.len() - 2] == 'm' && s[s.len() - 1] == 'd'
}

/// Decides `is_md_name`.
pub fn is_md_filename(name: &str) -> (b: bool)
    ensures
        b == is_md_name(name@),
{
    let len = name.unicode_len();
    len >= 4 && name.get_char(len - 3) == '.' && name.get_char(len - 2) == 'm' && name.get_char(
        len - 1,
    ) == 'd'
}

/// The display title a filename carries: the filename with every trailing
/// `.md` removed and everything up to and including the first `-` dropped;
/// empty if the stem has no `-` at all.
pub open spec fn title_of(filename: Seq<char>) -> Seq<char> {
    let stem = strip_md(filename);
    if first_dash(stem) < 0 {
        Seq::empty()
    } else {
        stem.subrange(first_dash(stem) + 1, stem.len() as int)
    }
}

/// The filename of a freshly created note.
pub open spec fn note_filename(ts_millis: nat, title: Seq<char>) -> Seq<char> {
    dec_str(ts_millis) + seq!['-'] + sanitized(title) + md_suffix()
}

/// The filename a rename produces: the prefix of the old name up to its
/// first `-`, then the sanitized new title and the extension.
pub open spec fn renamed_note_filename(old_name: Seq<char>, new_title: Seq<char>) -> Seq<char> {
    old_name.subrange(0, first_dash(old_name)) + seq!['-'] + sanitized(new_title) + md_suffix()
}

/// A rename preserves the timestamp prefix: on a filename of the shape
/// `T-rest` whose prefix `T` holds no `-`, the new filename is
/// `T-<sanitized new title>.md`.
pub proof fn lemma_rename_preserves_prefix(prefix: Seq<char>, rest: Seq<char>, new_title: Seq<char>)
    ensures
        (forall|j: int| 0 <= j < prefix.len() ==> prefix[j] != '-')
            ==> renamed_note_filename(prefix + seq!['-'] + rest, new_title)
            == prefix + seq!['-'] + sanitized(new_title) + md_suffix(),
{
    if forall|j: int| 0 <= j < prefix.len() ==> prefix[j] != '-' {
        let old = prefix + seq!['-'] + rest;
        assert(old[prefix.len() as int] == '-');
        assert forall|j: int| 0 <= j < prefix.len() implies old[j] != '-' by {
            assert(old[j] == prefix[j]);
        }
        lemma_first_dash_at(old, prefix.len() as int);
        assert(old.subrange(0, prefix.len() as int) =~= prefix);
    }
}

/// Builds the filename of a new note: the timestamp in decimal, a `-`, the
/// sanitized title, and the `.md` extension.
pub fn make_note_filename(timestamp_millis: u64, title: &str) -> (r: String)
    ensures
        r@ == note_filename(timestamp_millis as nat, title@),
{
    let mut s = u64_to_dec(timestamp_millis);
    proof {
        reveal_strlit("-");
        reveal_strlit(".md");
    }
    s.append("-");
    let safe = sanitize_title(title);
    s.append(safe.as_str());
    s.append(".md");
    proof {
        assert("-"@ =~= seq!['-']);
        assert(".md"@ =~= md_suffix());
        assert(s@ =~= note_filename(timestamp_millis as nat, title@));
    }
    s
}

/// Derives the display title from a note filename.
pub fn note_title(filename: &str) -> (r: String)
    ensures
        r@ == title_of(filename@),
{
    let len = filename.unicode_len();
    let mut end: usize = len;
    proof {
        assert(filename@.subrange(0, len as int) =~= filename@);
    }
    while end >= 3 && filename.get_char(end - 3) == '.' && filename.get_char(end - 2) == 'm'
        && filename.get_char(end - 1) == 'd'
        invariant
            end <= len,
            len == filename@.len(),
            strip_md(filename@) == strip_md(filename@.subrange(0, end as int)),
        decreases end,
    {
        proof {
            let cur = filename@.subrange(0, end as int);
            assert(ends_with_md(cur));
            assert(cur.subrange(0, cur.len() - 3) =~= filename@.subrange(0, end as int - 3));
        }
        end = end - 3;
    }
    proof {
        assert(!ends_with_md(filename@.subrange(0, end as int)));
    }
    let ghost stem = strip_md(filename@);
    proof {
        assert(stem =~= filename@.subrange(0, end as int));
    }
    let mut i: usize = 0;
    while i < end && filename.get_char(i) != '-'
        invariant
            i <= end,
            end <= len,
            len == filename@.len(),
            forall|j: int| 0 <= j < i ==> filename@[j] != '-',
        decreases end - i,
    {
        i = i + 1;
    }
    if i == end {
        proof {
            assert forall|j: int| 0 <= j < stem.len() implies stem[j] != '-' by {
                assert(stem[j] == filename@[j]);
            }
            lemma_first_dash_none(stem);
        }
        String::new()
    } else {
        proof {
            assert(stem[i as int] == filename@[i as int]);
            assert forall|j: int| 0 <= j < i implies stem[j] != '-' by {
                assert(stem[j] == filename@[j]);
            }
            lemma_first_dash_at(stem, i as int);
        }
        let r = filename.substring_char(i + 1, end);
        proof {
            assert(stem.subrange(i as int + 1, stem.len() as int) =~= filename@.subrange(
                i as int + 1,
                end as int,
            ));
        }
        String::from_str(r)
    }
}

/// Builds the filename a rename produces, reusing the timestamp prefix of
/// the old filename; fails with `InvalidInput` when the old filename holds
/// no `-` and so has no prefix to extract.
pub fn rename_filename(old_filename: &str, new_title: &str) -> (r: Result<String, NoteError>)
    ensures
        first_dash(old_filename@) < 0 ==> r == Err::<String, NoteError>(NoteError::InvalidInput),
        first_dash(old_filename@) >= 0 ==> (r matches Ok(s) && s@ == renamed_note_filename(
            old_filename@,
            new_title@,
        )),
{
    let len = old_filename.unicode_len();
    let mut i: usize = 0;
    while i < len && old_filename.get_char(i) != '-'
        invariant
            i <= len,
            len == old_filename@.len(),
            forall|j: int| 0 <= j < i ==> old_filename@[j] != '-',
        decreases len - i,
    {
        i = i + 1;
    }
    if i == len {
        proof {
            lemma_first_dash_none(old_filename@);
        }
        Err(NoteError::InvalidInput)
    } else {
        proof {
            lemma_first_dash_at(old_filename@, i as int);
        }
        let mut s = String::from_str(old_filename.substring_char(0, i));
        proof {
            reveal_strlit("-");
            reveal_strlit(".md");
        }
        s.append("-");
        let safe = sanitize_title(new_title);
        s.append(safe.as_str());
        s.append(".md");
        proof {
            assert("-"@ =~= seq!['-']);
            assert(".md"@ =~= md_suffix());
            assert(s@ =~= renamed_note_filename(old_filename@, new_title@));
        }
        Ok(s)
    }
}

} // verus!
