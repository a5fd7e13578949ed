//! Whitespace trimming over sequences of Unicode scalar values: the
//! specification of what a trimmed string is, a verified executable
//! implementation, and the proof that trimming is idempotent.

use vstd::prelude::*;
use vstd::string::StrSliceExecFns;

verus! {

/// Whether a character counts as whitespace, exactly as
/// `char::is_whitespace` decides it (the Unicode `White_Space` property,
/// a function of the character alone).
pub uninterp spec fn is_space(c: char) -> bool;

/// Relies on `char::is_whitespace`: whether the character has the Unicode
/// `White_Space` property, a function of the character alone.
#[verifier::external_body]
fn char_is_space(c: char) -> (r: bool)
    ensures
        r == is_space(c),
{
    c.is_whitespace()
}

/// `s` with every leading whitespace character removed.
pub open spec fn trim_start_spec(s: Seq<char>) -> Seq<char>
    decreases s.len(),
{
    if s.len() > 0 && is_space(s[0]) {
        trim_start_spec(s.drop_first())
    } else {
        s
    }
}

/// `s` with every trailing whitespace character removed.
pub open spec fn trim_end_spec(s: Seq<char>) -> Seq<char>
    decreases s.len(),
{
    if s.len() > 0 && is_space(s.last()) {
        trim_end_spec(s.drop_last())
    } else {
        s
    }
}

/// `s` with leading and trailing whitespace removed.
pub open spec fn trim_spec(s: Seq<char>) -> Seq<char> {
    trim_end_spec(trim_start_spec(s))
}

/// Dropping leading whitespace is the same as skipping past the first
/// `i` characters when those are exactly the leading whitespace.
proof fn lemma_trim_start_skip(s: Seq<char>, i: int)
    requires
        0 <= i <= s.len(),
        forall|j: int| 0 <= j < i ==> is_space(s[j]),
        i < s.len() ==> !is_space(s[i]),
    ensures
        trim_start_spec(s) == s.skip(i),
    decreases i,
{
    if i == 0 {
        assert(s.skip(0) =~= s);
    } else {
        lemma_trim_start_skip(s.drop_first(), i - 1);
        assert(s.drop_first().skip(i - 1) =~= s.skip(i));
    }
}

/// Dropping trailing whitespace is the same as keeping the first `e`
/// characters when the rest are exactly the trailing whitespace.
proof fn lemma_trim_end_take(s: Seq<char>, e: int)
    requires
        0 <= e <= s.len(),
        forall|j: int| e <= j < s.len() ==> is_space(s[j]),
        e > 0 ==> !is_space(s[e - 1]),
    ensures
        trim_end_spec(s) == s.take(e),
    decreases s.len(),
{
    if e == s.len() {
        if s.len() == 0 {
            assert(s.take(0) =~= s);
        } else {
            assert(s.take(e) =~= s);
        }
    } else {
        assert(is_space(s.last()));
        lemma_trim_end_take(s.drop_last(), e);
        assert(s.drop_last().take(e) =~= s.take(e));
    }
}

/// A trimmed-at-the-start sequence is empty or starts with non-whitespace.
proof fn lemma_trim_start_no_leading(s: Seq<char>)
    ensures
        trim_start_spec(s).len() > 0 ==> !is_space(trim_start_spec(s)[0]),
    decreases s.len(),
{
    if s.len() > 0 && is_space(s[0]) {
        lemma_trim_start_no_leading(s.drop_first());
    }
}

/// A trimmed-at-the-end sequence is empty or ends with non-whitespace.
proof fn lemma_trim_end_no_trailing(s: Seq<char>)
    ensures
        trim_end_spec(s).len() > 0 ==> !is_space(trim_end_spec(s).last()),
    decreases s.len(),
{
    if s.len() > 0 && is_space(s.last()) {
        lemma_trim_end_no_trailing(s.drop_last());
    }
}

/// Trimming at the end keeps a prefix of the sequence unchanged.
proof fn lemma_trim_end_prefix(s: Seq<char>)
    ensures
        trim_end_spec(s).len() <= s.len(),
        forall|i: int| 0 <= i < trim_end_spec(s).len() ==> trim_end_spec(s)[i] == s[i],
    decreases s.len(),
{
    if s.len() > 0 && is_space(s.last()) {
        lemma_trim_end_prefix(s.drop_last());
        assert forall|i: int|
            0 <= i < trim_end_spec(s).len() implies trim_end_spec(s)[i] == s[i] by {
            assert(trim_end_spec(s) == trim_end_spec(s.drop_last()));
            assert(trim_end_spec(s.drop_last())[i] == s.drop_last()[i]);
            assert(s.drop_last()[i] == s[i]);
        }
    }
}

/// Re-trimming an already-trimmed sequence yields the same sequence:
/// trimming is idempotent.
pub proof fn lemma_trim_idempotent(s: Seq<char>)
    ensures
        trim_spec(trim_spec(s)) == trim_spec(s),
{
    let u = trim_start_spec(s);
    let t = trim_end_spec(u);
    if t.len() == 0 {
        assert(trim_start_spec(t) == t);
        assert(trim_end_spec(t) == t);
    } else {
        lemma_trim_start_no_leading(s);
        lemma_trim_end_prefix(u);
        assert(t[0] == u[0]);
        assert(!is_space(t[0]));
        lemma_trim_end_no_trailing(u);
        assert(trim_start_spec(t) == t);
        assert(trim_end_spec(t) == t);
    }
}

/// Strips leading and trailing whitespace from a string, character by
/// character, without ever splitting a multi-byte character.
pub fn trim_str(s: &str) -> (r: String)
    ensures
        r@ == trim_spec(s@),
{
    let n = s.unicode_len();
    let mut start: usize = 0;
    while start < n && char_is_space(s.get_char(start))
        invariant
            0 <= start <= n,
            n == s@.len(),
            forall|j: int| 0 <= j < start ==> is_space(s@[j]),
        decreases n - start,
    {
        start = start + 1;
    }
    proof {
        lemma_trim_start_skip(s@, start as int);
    }
    let mut end: usize = n;
    while end > start && char_is_space(s.get_char(end - 1))
        invariant
            start <= end <= n,
            n == s@.len(),
            forall|j: int| end <= j < n ==> is_space(s@[j]),
        decreases end,
    {
        end = end - 1;
    }
    proof {
        let u = s@.skip(start as int);
        if end == start {
            lemma_trim_end_take(u, 0);
            assert(u.take(0) =~= s@.subrange(start as int, end as int));
        } else {
            assert(forall|j: int|
                end - start <= j < u.len() ==> u[j] == s@[j + start] && is_space(s@[j + start]));
            assert(!is_space(u[end - start - 1]));
            lemma_trim_end_take(u, end - start);
            assert(u.take(end - start) =~= s@.subrange(start as int, end as int));
        }
    }
    let piece = s.substring_char(start, end);
    piece.to_owned()
}

} // verus!
