//! Filename utilities for display and cover image detection.
use vstd::prelude::*;
use vstd::string::*;

use crate::text::{has_infix, has_prefix, lowercased, str_contains, str_starts_with, to_lowercase};

verus! {

/// `max_len - 3`, or zero when `max_len` is smaller than three.
pub open spec fn room_for_text(max_len: nat) -> nat {
    if max_len >= 3 {
        (max_len - 3) as nat
    } else {
        0
    }
}

/// A name cut to `max_len` characters by keeping its start and marking the cut
/// with a trailing ellipsis. Below three characters there is no room for any
/// of the name, and the ellipsis itself is cut to `max_len` dots.
pub open spec fn truncated_end(name: Seq<char>, max_len: nat) -> Seq<char> {
    if name.len() <= max_len {
        name
    } else if max_len >= 3 {
        name.take(room_for_text(max_len) as int) + "..."@
    } else {
        "..."@.take(max_len as int)
    }
}

/// A name cut to `max_len` characters by keeping its end and marking the cut
/// with a leading ellipsis. Below three characters there is no room for any
/// of the name, and the ellipsis itself is cut to `max_len` dots.
pub open spec fn truncated_start(name: Seq<char>, max_len: nat) -> Seq<char> {
    if name.len() <= max_len {
        name
    } else if max_len >= 3 {
        "..."@ + name.skip(name.len() - room_for_text(max_len))
    } else {
        "..."@.take(max_len as int)
    }
}

/// The cover-image heuristic on an already lowercased name.
pub open spec fn cover_name(lower: Seq<char>) -> bool {
    ||| has_infix(lower, "cover"@)
    ||| has_infix(lower, "folder"@)
    ||| has_infix(lower, "front"@)
    ||| has_prefix(lower, "000"@)
    ||| has_prefix(lower, "001"@)
    ||| has_prefix(lower, "page_000"@)
}

/// Filename utilities for display and cover image detection.
pub struct Naming;

impl Naming {
    /// Truncates a filename to fit within a maximum length, handling Unicode correctly.
    ///
    /// Names of at most `max_len` characters are returned unchanged; longer
    /// ones keep their first `max_len - 3` characters followed by `...`, so
    /// that the result is never longer than `max_len`.
    pub fn truncate_filename(name: &str, max_len: usize) -> (r: String)
        ensures
            r@ == truncated_end(name@, max_len as nat),
            r@.len() <= max_len,
    {
        proof {
            reveal_strlit("...");
        }
        let char_count = name.unicode_len();
        if char_count <= max_len {
            String::from_str(name)
        } else if max_len < 3 {
            String::from_str("...".substring_char(0, max_len))
        } else {
            let keep = max_len.saturating_sub(3);
            let head = name.substring_char(0, keep);
            let mut r = String::from_str(head);
            r.append("...");
            r
        }
    }

    /// Truncates a filename to fit within a maximum length by keeping the end of the name,
    /// handling Unicode correctly.
    ///
    /// Longer names keep their last `max_len - 3` characters after `...`, so
    /// that the result is never longer than `max_len`.
    pub fn truncate_from_start(name: &str, max_len: usize) -> (r: String)
        ensures
            r@ == truncated_start(name@, max_len as nat),
            r@.len() <= max_len,
    {
        proof {
            reveal_strlit("...");
        }
        let char_count = name.unicode_len();
        if char_count <= max_len {
            String::from_str(name)
        } else if max_len < 3 {
            String::from_str("...".substring_char(0, max_len))
        } else {
            let keep = max_len.saturating_sub(3);
            let tail = name.substring_char(char_count - keep, char_count);
            let mut r = String::from_str("...");
            r.append(tail);
            r
        }
    }

    /// Determines if a filename represents a cover image using heuristics:
    /// its lowercase form contains `cover`, `folder` or `front`, or starts
    /// with `000`, `001` or `page_000`.
    pub fn is_cover_image(filename: &str) -> (b: bool)
        ensures
            b == cover_name(lowercased(filename@)),
    {
        let lower = to_lowercase(filename);
        Self::is_cover_name(lower.as_str())
    }

    /// The cover-image heuristic on a name that is already lowercase.
    pub fn is_cover_name(lower: &str) -> (b: bool)
        ensures
            b == cover_name(lower@),
    {
        if str_contains(lower, "cover") || str_contains(lower, "folder") || str_contains(
            lower,
            "front",
        ) {
            return true;
        }
        if str_starts_with(lower, "000") || str_starts_with(lower, "001") || str_starts_with(
            lower,
            "page_000",
        ) {
            return true;
        }
        false
    }
}

/// A name that `truncate_filename` cuts ends up exactly `max_len` characters
/// long; when there is room for text (`max_len` of at least three) it starts
/// with the first `max_len - 3` characters of the name. A name that fits is
/// kept whole.
pub proof fn law_truncate_end_length(name: Seq<char>, max_len: nat)
    ensures
        name.len() <= max_len ==> truncated_end(name, max_len) == name,
        name.len() > max_len ==> truncated_end(name, max_len).len() == max_len,
        name.len() > max_len && max_len >= 3 ==> has_prefix(
            truncated_end(name, max_len),
            name.take(room_for_text(max_len) as int),
        ),
{
    reveal_strlit("...");
    if name.len() > max_len && max_len >= 3 {
        let r = truncated_end(name, max_len);
        let p = name.take(room_for_text(max_len) as int);
        assert(r.subrange(0, p.len() as int) =~= p);
    }
}

/// A name that `truncate_from_start` cuts ends up exactly `max_len`
/// characters long; when there is room for text (`max_len` of at least three)
/// it ends with the last `max_len - 3` characters of the name. A name that
/// fits is kept whole.
pub proof fn law_truncate_start_length(name: Seq<char>, max_len: nat)
    ensures
        name.len() <= max_len ==> truncated_start(name, max_len) == name,
        name.len() > max_len ==> truncated_start(name, max_len).len() == max_len,
        name.len() > max_len && max_len >= 3 ==> crate::text::has_suffix(
            truncated_start(name, max_len),
            name.skip(name.len() - room_for_text(max_len)),
        ),
{
    reveal_strlit("...");
    if name.len() > max_len && max_len >= 3 {
        let r = truncated_start(name, max_len);
        let s = name.skip(name.len() - room_for_text(max_len));
        assert(r.subrange(r.len() - s.len(), r.len() as int) =~= s);
    }
}

} // verus!
