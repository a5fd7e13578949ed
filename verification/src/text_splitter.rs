//! Text-splitting strategies: a pure capability turning one block of text
//! into an ordered sequence of smaller blocks, and the fixed-size
//! character-chunk strategy that implements it.

use vstd::arithmetic::div_mod::{lemma_fundamental_div_mod, lemma_fundamental_div_mod_converse};
use vstd::prelude::*;
use vstd::string::StrSliceExecFns;

use crate::trim::{trim_spec, trim_str};

verus! {

/// Error from a splitting strategy whose transformation cannot be
/// completed. The strategies here are total and never produce it, but the
/// capability's contract allows failure so that richer strategies fit.
#[derive(Debug, Clone)]
pub struct TextSplitterError {
    pub message: String,
}

/// A pure strategy converting one text block into an ordered sequence of
/// smaller text blocks: deterministic, no side effects, never infinite.
pub trait TextSplitter: Sized {
    /// Whether the strategy is configured so that splitting is defined.
    spec fn valid(&self) -> bool;

    /// Whether the strategy accepts this text.
    spec fn split_ok(&self, text: Seq<char>) -> bool;

    /// The ordered sequence of pieces the strategy produces from `text`.
    spec fn spec_split(&self, text: Seq<char>) -> Seq<Seq<char>>;

    /// Splits one block of text; succeeds exactly on accepted inputs, and
    /// on success returns precisely the specified pieces, in order.
    fn split_text(&self, text: &str) -> (r: Result<Vec<String>, TextSplitterError>)
        requires
            self.valid(),
        ensures
            r is Ok <==> self.split_ok(text@),
            (r matches Ok(v) ==> v@.map_values(|p: String| p@) == self.spec_split(text@)),
    ;
}

/// The consecutive windows of `k` characters that partition `text`; the
/// final window may be shorter, and empty text has no windows at all.
pub open spec fn chunks_of(text: Seq<char>, k: nat) -> Seq<Seq<char>>
    decreases text.len(),
{
    if k == 0 || text.len() == 0 {
        Seq::empty()
    } else if text.len() <= k {
        seq![text]
    } else {
        seq![text.take(k as int)] + chunks_of(text.skip(k as int), k)
    }
}

/// The number of windows brackets the length of the text: all windows
/// but the last are full, and the last is non-empty.
proof fn lemma_chunks_count_bounds(text: Seq<char>, k: nat)
    requires
        k >= 1,
    ensures
        text.len() == 0 ==> chunks_of(text, k).len() == 0,
        text.len() >= 1 ==> chunks_of(text, k).len() >= 1 && (k as int) * (chunks_of(
            text,
            k,
        ).len() as int - 1) < text.len() as int <= (k as int) * (chunks_of(text, k).len() as int),
    decreases text.len(),
{
    let ki = k as int;
    let l = text.len() as int;
    let c = chunks_of(text, k).len() as int;
    if text.len() == 0 {
    } else if text.len() <= k {
        assert(ki * (c - 1) == 0) by (nonlinear_arith)
            requires
                c == 1,
        ;
    } else {
        lemma_chunks_count_bounds(text.skip(ki), k);
        let t = chunks_of(text.skip(ki), k).len() as int;
        assert(ki * (c - 1) < l && l <= ki * c) by (nonlinear_arith)
            requires
                c == t + 1,
                ki * (t - 1) < l - ki <= ki * t,
        ;
    }
}

/// The number of windows is the length of the text divided by the window
/// size, rounded up.
proof fn lemma_chunks_count(text: Seq<char>, k: nat)
    requires
        k >= 1,
    ensures
        chunks_of(text, k).len() as int == (text.len() as int + k as int - 1) / (k as int),
{
    let l = text.len() as int;
    let ki = k as int;
    let c = chunks_of(text, k).len() as int;
    lemma_chunks_count_bounds(text, k);
    if text.len() == 0 {
        lemma_fundamental_div_mod_converse(ki - 1, ki, 0, ki - 1);
    } else {
        let r = l + ki - 1 - c * ki;
        assert(0 <= r < ki) by (nonlinear_arith)
            requires
                r == l + ki - 1 - c * ki,
                ki * (c - 1) < l <= ki * c,
                ki >= 1,
        ;
        lemma_fundamental_div_mod_converse(l + ki - 1, ki, c, r);
    }
}

/// Concatenating the windows in order reconstructs the text exactly.
proof fn lemma_chunks_flatten(text: Seq<char>, k: nat)
    requires
        k >= 1,
    ensures
        chunks_of(text, k).flatten() == text,
    decreases text.len(),
{
    let c = chunks_of(text, k);
    if text.len() == 0 {
        assert(c.flatten() =~= text);
    } else if text.len() <= k {
        assert(Seq::<Seq<char>>::empty().flatten() =~= Seq::<char>::empty());
        assert(c.drop_first() =~= Seq::<Seq<char>>::empty());
        assert(c.flatten() == c.first() + c.drop_first().flatten());
        assert(c.flatten() =~= text);
    } else {
        let tail = chunks_of(text.skip(k as int), k);
        lemma_chunks_flatten(text.skip(k as int), k);
        assert(c.first() == text.take(k as int));
        assert(c.drop_first() =~= tail);
        assert(c.flatten() == c.first() + c.drop_first().flatten());
        assert(c.flatten() =~= text);
    }
}

/// Every window holds between one and `k` characters, and every window
/// but possibly the last holds exactly `k`.
proof fn lemma_chunks_sizes(text: Seq<char>, k: nat)
    requires
        k >= 1,
    ensures
        forall|i: int|
            0 <= i < chunks_of(text, k).len() ==> 1 <= (#[trigger] chunks_of(text, k)[i]).len()
                <= k,
        forall|i: int|
            0 <= i < chunks_of(text, k).len() - 1 ==> (#[trigger] chunks_of(text, k)[i]).len()
                == k,
    decreases text.len(),
{
    let c = chunks_of(text, k);
    if text.len() == 0 {
    } else if text.len() <= k {
        assert(c[0] == text);
    } else {
        let tail = chunks_of(text.skip(k as int), k);
        lemma_chunks_sizes(text.skip(k as int), k);
        assert forall|i: int| 0 <= i < c.len() implies 1 <= (#[trigger] c[i]).len() <= k by {
            if i == 0 {
                assert(c[i] == text.take(k as int));
            } else {
                assert(c[i] == tail[i - 1]);
            }
        }
        assert forall|i: int| 0 <= i < c.len() - 1 implies (#[trigger] c[i]).len() == k by {
            if i == 0 {
                assert(c[i] == text.take(k as int));
            } else {
                assert(c[i] == tail[i - 1]);
                assert(i - 1 < tail.len() - 1);
            }
        }
    }
}

/// Chunk completeness: splitting a text of `L` characters into windows of
/// `k` yields exactly `ceil(L / k)` windows, whose pre-trim character
/// spans concatenate back to the original text; each window except
/// possibly the final one holds exactly `k` characters, and none is empty.
pub proof fn lemma_chunk_completeness(text: Seq<char>, k: nat)
    requires
        k >= 1,
    ensures
        chunks_of(text, k).len() as int == (text.len() as int + k as int - 1) / (k as int),
        chunks_of(text, k).flatten() == text,
        forall|i: int|
            0 <= i < chunks_of(text, k).len() ==> 1 <= (#[trigger] chunks_of(text, k)[i]).len()
                <= k,
        forall|i: int|
            0 <= i < chunks_of(text, k).len() - 1 ==> (#[trigger] chunks_of(text, k)[i]).len()
                == k,
{
    lemma_chunks_count(text, k);
    lemma_chunks_flatten(text, k);
    lemma_chunks_sizes(text, k);
}

/// Splits input by a fixed count of characters per chunk (the last chunk
/// may be shorter); optionally strips leading and trailing whitespace from
/// each chunk after slicing. Trimming never merges or drops chunks: a
/// chunk that trims to the empty string is still emitted.
#[derive(Debug, Clone)]
pub struct ChunkSplitter {
    chunk_size: usize,
    trim_chunks: bool,
}

impl Default for ChunkSplitter {
    /// The default strategy: windows of ten characters, trimmed.
    fn default() -> (r: Self)
        ensures
            r.spec_chunk_size() == 10,
            r.spec_trim_chunks() == true,
    {
        ChunkSplitter { chunk_size: 10, trim_chunks: true }
    }
}

impl ChunkSplitter {
    /// The configured number of characters per window.
    pub closed spec fn spec_chunk_size(&self) -> usize {
        self.chunk_size
    }

    /// Whether each window is trimmed after slicing.
    pub closed spec fn spec_trim_chunks(&self) -> bool {
        self.trim_chunks
    }

    /// Each piece trimmed, when trimming is configured.
    pub open spec fn apply_trim(&self, pieces: Seq<Seq<char>>) -> Seq<Seq<char>> {
        if self.spec_trim_chunks() {
            pieces.map_values(|c: Seq<char>| trim_spec(c))
        } else {
            pieces
        }
    }

    /// Configures the strategy; the window size must be positive.
    pub fn new(chunk_size: usize, trim_chunks: bool) -> (r: Self)
        requires
            chunk_size >= 1,
        ensures
            r.spec_chunk_size() == chunk_size,
            r.spec_trim_chunks() == trim_chunks,
            r.valid(),
    {
        ChunkSplitter { chunk_size, trim_chunks }
    }

    /// Partitions `text`, as a sequence of Unicode scalar values, into
    /// consecutive windows of exactly `chunk_size` characters except
    /// possibly the final window, trims each window when configured, and
    /// emits the windows in original order.
    pub fn split(&self, text: &str) -> (r: Vec<String>)
        requires
            self.valid(),
        ensures
            r@.map_values(|p: String| p@) == self.spec_split(text@),
    {
        let ghost k = self.spec_chunk_size() as nat;
        let n = text.unicode_len();
        let mut out: Vec<String> = Vec::new();
        let mut i: usize = 0;
        proof {
            assert(text@.skip(0) =~= text@);
        }
        while i < n
            invariant
                self.valid(),
                i <= n,
                n == text@.len(),
                k == self.spec_chunk_size() as nat,
                out@.map_values(|p: String| p@) + self.apply_trim(
                    chunks_of(text@.skip(i as int), k),
                ) == self.spec_split(text@),
            decreases n - i,
        {
            let end = if n - i < self.chunk_size {
                n
            } else {
                i + self.chunk_size
            };
            let window = text.substring_char(i, end);
            let piece = if self.trim_chunks {
                trim_str(window)
            } else {
                window.to_owned()
            };
            proof {
                let rest = text@.skip(i as int);
                let m = end - i;
                assert(rest.take(m) =~= text@.subrange(i as int, end as int));
                assert(rest.skip(m) =~= text@.skip(end as int));
                if rest.len() <= k {
                    assert(chunks_of(rest, k) =~= seq![rest.take(m)] + chunks_of(
                        rest.skip(m),
                        k,
                    ));
                }
                assert(self.apply_trim(chunks_of(rest, k)) =~= seq![piece@] + self.apply_trim(
                    chunks_of(text@.skip(end as int), k),
                ));
                assert(out@.push(piece).map_values(|p: String| p@) =~= out@.map_values(
                    |p: String| p@,
                ).push(piece@));
                assert(out@.push(piece).map_values(|p: String| p@) + self.apply_trim(
                    chunks_of(text@.skip(end as int), k),
                ) =~= out@.map_values(|p: String| p@) + self.apply_trim(
                    chunks_of(text@.skip(i as int), k),
                ));
            }
            out.push(piece);
            i = end;
        }
        proof {
            assert(text@.skip(n as int) =~= Seq::<char>::empty());
            assert(self.apply_trim(chunks_of(text@.skip(n as int), k)) =~= Seq::<
                Seq<char>,
            >::empty());
            assert(out@.map_values(|p: String| p@) + Seq::<Seq<char>>::empty() =~= out@.map_values(
                |p: String| p@,
            ));
        }
        out
    }
}

impl TextSplitter for ChunkSplitter {
    /// The window size must be positive for windows to be defined.
    open spec fn valid(&self) -> bool {
        self.spec_chunk_size() >= 1
    }

    /// This strategy is total: every text is accepted.
    open spec fn split_ok(&self, text: Seq<char>) -> bool {
        true
    }

    /// The fixed windows of the text, in order, each trimmed when
    /// trimming is configured.
    open spec fn spec_split(&self, text: Seq<char>) -> Seq<Seq<char>> {
        self.apply_trim(chunks_of(text, self.spec_chunk_size() as nat))
    }

    fn split_text(&self, text: &str) -> (r: Result<Vec<String>, TextSplitterError>) {
        Ok(self.split(text))
    }
}

/// Empty input: splitting the empty text yields zero chunks, not one
/// empty chunk.
pub proof fn lemma_split_empty_input(sp: ChunkSplitter)
    ensures
        sp.spec_split(Seq::<char>::empty()) == Seq::<Seq<char>>::empty(),
{
    assert(chunks_of(Seq::<char>::empty(), sp.spec_chunk_size() as nat) =~= Seq::<
        Seq<char>,
    >::empty());
    assert(sp.spec_split(Seq::<char>::empty()) =~= Seq::<Seq<char>>::empty());
}

} // verus!
