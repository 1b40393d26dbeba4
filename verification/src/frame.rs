//! Where one record ends and the next begins.
//!
//! Records are JSON objects written back to back with no length in front of
//! them. The end of a record is found by reading it: after any leading
//! whitespace comes an opening brace, and the record ends with the brace
//! that closes it, braces inside string literals not counted. The result
//! depends on the bytes of the record alone, which is what keeps the spans
//! in the index valid while the log grows behind them.

use vstd::prelude::*;

verus! {

/// Whether `b` is one of the four JSON whitespace bytes.
pub open spec fn is_space(b: u8) -> bool {
    b == 0x20 || b == 0x09 || b == 0x0a || b == 0x0d
}

/// The first position at or after `i` that does not hold whitespace.
pub open spec fn skip_space(s: Seq<u8>, i: int) -> int
    decreases s.len() - i,
{
    if 0 <= i < s.len() && is_space(s[i]) {
        skip_space(s, i + 1)
    } else {
        i
    }
}

/// The position just behind the brace that closes the object being read,
/// when reading goes on at `i` with `depth` braces open, inside a string
/// literal if `quoted`, behind a backslash if `escaped`.
pub open spec fn object_end(s: Seq<u8>, i: int, depth: nat, quoted: bool, escaped: bool) -> Option<int>
    decreases s.len() - i,
{
    if i < 0 || i >= s.len() {
        None
    } else if quoted {
        if escaped {
            object_end(s, i + 1, depth, true, false)
        } else if s[i] == 0x5c {
            object_end(s, i + 1, depth, true, true)
        } else if s[i] == 0x22 {
            object_end(s, i + 1, depth, false, false)
        } else {
            object_end(s, i + 1, depth, true, false)
        }
    } else if s[i] == 0x22 {
        object_end(s, i + 1, depth, true, false)
    } else if s[i] == 0x7b {
        object_end(s, i + 1, depth + 1, false, false)
    } else if s[i] == 0x7d {
        if depth <= 1 {
            Some(i + 1)
        } else {
            object_end(s, i + 1, (depth - 1) as nat, false, false)
        }
    } else {
        object_end(s, i + 1, depth, false, false)
    }
}

/// The end of the record that starts at `pos`, or `None` if no complete
/// record starts there.
pub open spec fn frame_end(s: Seq<u8>, pos: int) -> Option<int> {
    let i = skip_space(s, pos);
    if 0 <= i < s.len() && s[i] == 0x7b {
        object_end(s, i + 1, 1, false, false)
    } else {
        None
    }
}

/// Whether `s` and `t` hold the same `n` bytes from `pos` and `at` on.
pub open spec fn same_bytes(s: Seq<u8>, pos: int, t: Seq<u8>, at: int, n: int) -> bool {
    &&& 0 <= pos && pos + n <= s.len()
    &&& 0 <= at && at + n <= t.len()
    &&& forall|k: int| pos <= k < pos + n ==> #[trigger] s[k] == t[k - pos + at]
}

proof fn lemma_skip_space_bounds(s: Seq<u8>, i: int)
    requires
        0 <= i <= s.len(),
    ensures
        i <= skip_space(s, i) <= s.len(),
    decreases s.len() - i,
{
    if i < s.len() && is_space(s[i]) {
        lemma_skip_space_bounds(s, i + 1);
    }
}

proof fn lemma_object_end_bounds(s: Seq<u8>, i: int, depth: nat, quoted: bool, escaped: bool)
    requires
        0 <= i,
    ensures
        object_end(s, i, depth, quoted, escaped) matches Some(e) ==> i < e <= s.len(),
    decreases s.len() - i,
{
    if i < s.len() {
        if quoted {
            if escaped {
                lemma_object_end_bounds(s, i + 1, depth, true, false);
            } else if s[i] == 0x5c {
                lemma_object_end_bounds(s, i + 1, depth, true, true);
            } else if s[i] == 0x22 {
                lemma_object_end_bounds(s, i + 1, depth, false, false);
            } else {
                lemma_object_end_bounds(s, i + 1, depth, true, false);
            }
        } else if s[i] == 0x22 {
            lemma_object_end_bounds(s, i + 1, depth, true, false);
        } else if s[i] == 0x7b {
            lemma_object_end_bounds(s, i + 1, depth + 1, false, false);
        } else if s[i] == 0x7d {
            if depth > 1 {
                lemma_object_end_bounds(s, i + 1, (depth - 1) as nat, false, false);
            }
        } else {
            lemma_object_end_bounds(s, i + 1, depth, false, false);
        }
    }
}

/// A record is never empty and never runs past the end of the bytes.
pub proof fn lemma_frame_end_bounds(s: Seq<u8>, pos: int)
    requires
        0 <= pos <= s.len(),
    ensures
        frame_end(s, pos) matches Some(e) ==> pos < e <= s.len(),
{
    lemma_skip_space_bounds(s, pos);
    lemma_object_end_bounds(s, skip_space(s, pos) + 1, 1, false, false);
}

proof fn lemma_skip_space_local(s: Seq<u8>, i: int, t: Seq<u8>, at: int, n: int)
    requires
        same_bytes(s, i, t, at, n),
        skip_space(s, i) < i + n,
    ensures
        skip_space(t, at) - at == skip_space(s, i) - i,
    decreases n,
{
    lemma_skip_space_bounds(s, i);
    if is_space(s[i]) {
        lemma_skip_space_local(s, i + 1, t, at + 1, n - 1);
    }
}

proof fn lemma_object_end_local(
    s: Seq<u8>,
    i: int,
    t: Seq<u8>,
    at: int,
    n: int,
    depth: nat,
    quoted: bool,
    escaped: bool,
)
    requires
        same_bytes(s, i, t, at, n),
        object_end(s, i, depth, quoted, escaped) matches Some(e) && e <= i + n,
    ensures
        object_end(t, at, depth, quoted, escaped) == Some(
            object_end(s, i, depth, quoted, escaped).unwrap() - i + at,
        ),
    decreases n,
{
    lemma_object_end_bounds(s, i, depth, quoted, escaped);
    let closes = !quoted && s[i] == 0x7d && depth <= 1;
    if !closes {
        let next_depth: nat = if quoted {
            depth
        } else if s[i] == 0x7b {
            depth + 1
        } else if s[i] == 0x7d {
            (depth - 1) as nat
        } else {
            depth
        };
        let next_quoted = if quoted {
            escaped || s[i] != 0x22
        } else {
            s[i] == 0x22
        };
        let next_escaped = quoted && !escaped && s[i] == 0x5c;
        lemma_object_end_bounds(s, i + 1, next_depth, next_quoted, next_escaped);
        lemma_object_end_local(s, i + 1, t, at + 1, n - 1, next_depth, next_quoted, next_escaped);
    }
}

/// Where a record ends depends on its own bytes alone: wherever the same
/// bytes stand, whatever follows them, the record ends at the same distance
/// from its start.
pub proof fn lemma_frame_end_local(s: Seq<u8>, pos: int, t: Seq<u8>, at: int)
    requires
        0 <= pos <= s.len(),
        frame_end(s, pos) is Some,
        same_bytes(s, pos, t, at, frame_end(s, pos).unwrap() - pos),
    ensures
        frame_end(t, at) == Some(frame_end(s, pos).unwrap() - pos + at),
{
    let e = frame_end(s, pos).unwrap();
    let n = e - pos;
    let i = skip_space(s, pos);
    lemma_skip_space_bounds(s, pos);
    lemma_object_end_bounds(s, i + 1, 1, false, false);
    lemma_skip_space_local(s, pos, t, at, n);
    let j = skip_space(t, at);
    lemma_object_end_local(s, i + 1, t, j + 1, n - (i + 1 - pos), 1, false, false);
}

/// Finds the end of the record that starts at `pos`.
pub fn find_frame_end(bytes: &[u8], pos: usize) -> (out: Option<usize>)
    requires
        pos <= bytes@.len(),
    ensures
        match out {
            Some(e) => frame_end(bytes@, pos as int) == Some(e as int) && pos < e <= bytes@.len(),
            None => frame_end(bytes@, pos as int).is_none(),
        },
{
    let n: usize = bytes.len();
    let mut i: usize = pos;
    while i < n && (bytes[i] == 0x20 || bytes[i] == 0x09 || bytes[i] == 0x0a || bytes[i] == 0x0d)
        invariant
            n == bytes@.len(),
            pos <= i <= n,
            skip_space(bytes@, pos as int) == skip_space(bytes@, i as int),
        decreases n - i,
    {
        i = i + 1;
    }
    if i >= n || bytes[i] != 0x7b {
        return None;
    }
    let ghost first: int = i as int + 1;
    i = i + 1;
    let mut depth: usize = 1;
    let mut quoted: bool = false;
    let mut escaped: bool = false;
    while i < n
        invariant
            n == bytes@.len(),
            first <= i <= n,
            pos < first,
            1 <= depth <= i - first + 1,
            escaped ==> quoted,
            object_end(bytes@, first, 1, false, false) == object_end(
                bytes@,
                i as int,
                depth as nat,
                quoted,
                escaped,
            ),
            frame_end(bytes@, pos as int) == object_end(bytes@, first, 1, false, false),
        decreases n - i,
    {
        let b: u8 = bytes[i];
        if quoted {
            if escaped {
                escaped = false;
            } else if b == 0x5c {
                escaped = true;
            } else if b == 0x22 {
                quoted = false;
            }
        } else if b == 0x22 {
            quoted = true;
        } else if b == 0x7b {
            depth = depth + 1;
        } else if b == 0x7d {
            if depth <= 1 {
                return Some(i + 1);
            }
            depth = depth - 1;
        }
        i = i + 1;
    }
    None
}

} // verus!
