//! Token-window chunking of document text.
use crate::ids::{chunk_id, chunk_id_spec};
use crate::text::{chars_of, string_of, trim_seq, trim_str};
use vstd::prelude::*;

verus! {

/// Token sequence that the `o200k_base` encoding gives for a text; `None`
/// when the pre-tokenizing pattern fails on the text (its backtracking
/// limit is reached).
pub uninterp spec fn o200k_encode(s: Seq<char>) -> Option<Seq<u32>>;

/// Text that the `o200k_base` encoding decodes a token sequence to; `None`
/// when a token is unknown or the bytes are not UTF-8.
pub uninterp spec fn o200k_decode(t: Seq<u32>) -> Option<Seq<char>>;

#[verifier::external_type_specification]
#[verifier::external_body]
pub struct ExCoreBPE(tiktoken_rs::CoreBPE);

/// Relies on `tiktoken_rs::o200k_base`: builds the encoder from the table
/// bundled with the crate.
#[verifier::external_body]
fn load_o200k_base() -> (r: Option<tiktoken_rs::CoreBPE>) {
    tiktoken_rs::o200k_base().ok()
}

/// The `o200k_base` byte-pair encoder.
pub struct TiktokenTokenizer {
    bpe: tiktoken_rs::CoreBPE,
}

/// Relies on `tiktoken_rs::CoreBPE::encode`, with every special token of
/// the encoder allowed: the tokens depend on the text alone, and the call
/// fails (without panicking) exactly when the pattern fails on the text.
#[verifier::external_body]
fn bpe_encode(bpe: &tiktoken_rs::CoreBPE, text: &str) -> (r: Option<Vec<u32>>)
    ensures
        match r {
            Some(t) => o200k_encode(text@) == Some(t@),
            None => o200k_encode(text@) is None,
        },
{
    bpe.encode(text, &bpe.special_tokens()).ok().map(|(tokens, _)| tokens)
}

/// Relies on `tiktoken_rs::CoreBPE::decode`: the text depends on the tokens
/// alone, and decoding fails exactly when `o200k_decode` has no text.
#[verifier::external_body]
fn bpe_decode(bpe: &tiktoken_rs::CoreBPE, tokens: &[u32]) -> (r: Option<String>)
    ensures
        match r {
            Some(s) => o200k_decode(tokens@) == Some(s@),
            None => o200k_decode(tokens@) is None,
        },
{
    bpe.decode(tokens).ok()
}

impl TiktokenTokenizer {
    /// The tokenizer, or `None` when the bundled table cannot be read.
    pub fn new() -> (r: Option<TiktokenTokenizer>) {
        match load_o200k_base() {
            Some(bpe) => Some(TiktokenTokenizer { bpe }),
            None => None,
        }
    }

    pub fn encode(&self, text: &str) -> (r: Option<Vec<u32>>)
        ensures
            match r {
                Some(t) => o200k_encode(text@) == Some(t@),
                None => o200k_encode(text@) is None,
            },
    {
        bpe_encode(&self.bpe, text)
    }

    pub fn decode(&self, tokens: &[u32]) -> (r: Option<String>)
        ensures
            match r {
                Some(s) => o200k_decode(tokens@) == Some(s@),
                None => o200k_decode(tokens@) is None,
            },
    {
        bpe_decode(&self.bpe, tokens)
    }
}

/// Token ranges `[start, end)` of a sliding window of width `max` and stride
/// `step`, from `start` up to the first window that reaches `len`.
pub open spec fn windows_from(start: nat, len: nat, max: nat, step: nat) -> Seq<(int, int)>
    decreases len - start,
{
    if start >= len || step == 0 {
        Seq::empty()
    } else {
        let end = if start + max < len {
            start + max
        } else {
            len
        };
        if end == len || start + step >= len {
            seq![(start as int, end as int)]
        } else {
            seq![(start as int, end as int)] + windows_from(start + step, len, max, step)
        }
    }
}

/// The windows over `len` tokens with width `max` and `overlap` shared tokens.
pub open spec fn windows(len: nat, max: nat, overlap: nat) -> Seq<(int, int)> {
    windows_from(0, len, max, (max - overlap) as nat)
}

pub open spec fn int_pairs(v: Seq<(usize, usize)>) -> Seq<(int, int)> {
    Seq::new(v.len(), |i: int| (v[i].0 as int, v[i].1 as int))
}

/// The window ranges for `len` tokens.
pub fn token_windows(len: usize, max: usize, overlap: usize) -> (r: Vec<(usize, usize)>)
    requires
        overlap < max,
    ensures
        int_pairs(r@) == windows(len as nat, max as nat, overlap as nat),
{
    let step = max - overlap;
    let ghost step_n = step as nat;
    let mut r: Vec<(usize, usize)> = Vec::new();
    let mut start: usize = 0;
    let mut done = false;
    assert(int_pairs(r@) + windows_from(0, len as nat, max as nat, step_n) =~= windows(
        len as nat,
        max as nat,
        overlap as nat,
    ));
    while !done && start < len
        invariant
            step == max - overlap,
            step_n == step as nat,
            step > 0,
            done ==> int_pairs(r@) == windows(len as nat, max as nat, overlap as nat),
            !done ==> int_pairs(r@) + windows_from(start as nat, len as nat, max as nat, step_n)
                == windows(len as nat, max as nat, overlap as nat),
            !done ==> start <= len,
        decreases len - start + (if done { 0int } else { 1int }),
    {
        let end = if max < len - start {
            start + max
        } else {
            len
        };
        let ghost before = r@;
        r.push((start, end));
        assert(int_pairs(r@) =~= int_pairs(before).push((start as int, end as int)));
        if end == len {
            assert(int_pairs(r@) =~= int_pairs(before) + windows_from(
                start as nat,
                len as nat,
                max as nat,
                step_n,
            ));
            done = true;
        } else {
            assert(int_pairs(r@) + windows_from((start + step) as nat, len as nat, max as nat, step_n)
                =~= int_pairs(before) + windows_from(start as nat, len as nat, max as nat, step_n));
            start = start + step;
        }
    }
    if !done {
        assert(int_pairs(r@) =~= int_pairs(r@) + windows_from(
            start as nat,
            len as nat,
            max as nat,
            step_n,
        ));
    }
    r
}

/// Token count and decoded text of each window; `None` when a window does
/// not decode.
pub open spec fn window_texts(tokens: Seq<u32>, ws: Seq<(int, int)>) -> Option<
    Seq<(nat, Seq<char>)>,
>
    decreases ws.len(),
{
    if ws.len() == 0 {
        Some(Seq::empty())
    } else {
        match window_texts(tokens, ws.drop_last()) {
            None => None,
            Some(p) => {
                let w = ws.last();
                match o200k_decode(tokens.subrange(w.0, w.1)) {
                    None => None,
                    Some(t) => Some(p.push(((w.1 - w.0) as nat, t))),
                }
            },
        }
    }
}

proof fn lemma_window_texts_prefix_none(tokens: Seq<u32>, ws: Seq<(int, int)>, k: int)
    requires
        0 <= k <= ws.len(),
        window_texts(tokens, ws.subrange(0, k)) is None,
    ensures
        window_texts(tokens, ws) is None,
    decreases ws.len(),
{
    if k < ws.len() {
        assert(ws.drop_last().subrange(0, k) =~= ws.subrange(0, k));
        lemma_window_texts_prefix_none(tokens, ws.drop_last(), k);
    } else {
        assert(ws.subrange(0, k) =~= ws);
    }
}

pub open spec fn text_pairs(v: Seq<(usize, String)>) -> Seq<(nat, Seq<char>)> {
    Seq::new(v.len(), |i: int| (v[i].0 as nat, v[i].1@))
}

/// Decodes each window of `tokens`.
fn decode_windows(tok: &TiktokenTokenizer, tokens: &Vec<u32>, ws: &Vec<(usize, usize)>) -> (r:
    Option<Vec<(usize, String)>>)
    requires
        forall|i: int| 0 <= i < ws@.len() ==> #[trigger] ws@[i].0 <= ws@[i].1 <= tokens@.len(),
    ensures
        match r {
            Some(v) => window_texts(tokens@, int_pairs(ws@)) == Some(text_pairs(v@)),
            None => window_texts(tokens@, int_pairs(ws@)) is None,
        },
{
    let mut out: Vec<(usize, String)> = Vec::new();
    let mut i: usize = 0;
    assert(int_pairs(ws@).subrange(0, 0) =~= Seq::<(int, int)>::empty());
    assert(text_pairs(out@) =~= Seq::<(nat, Seq<char>)>::empty());
    while i < ws.len()
        invariant
            i <= ws@.len(),
            forall|j: int| 0 <= j < ws@.len() ==> #[trigger] ws@[j].0 <= ws@[j].1 <= tokens@.len(),
            window_texts(tokens@, int_pairs(ws@).subrange(0, i as int)) == Some(text_pairs(out@)),
        decreases ws.len() - i,
    {
        let (s, e) = ws[i];
        let slice = &tokens.as_slice()[s..e];
        let ghost pre = int_pairs(ws@).subrange(0, i as int);
        let ghost cur = int_pairs(ws@).subrange(0, i + 1);
        assert(cur.drop_last() =~= pre);
        assert(slice@ =~= tokens@.subrange(s as int, e as int));
        match tok.decode(slice) {
            None => {
                proof {
                    lemma_window_texts_prefix_none(tokens@, int_pairs(ws@), i + 1);
                }
                return None;
            },
            Some(t) => {
                let ghost before = out@;
                out.push(((e - s) as usize, t));
                assert(text_pairs(out@) =~= text_pairs(before).push(((e - s) as nat, t@)));
            },
        }
        i = i + 1;
    }
    assert(int_pairs(ws@).subrange(0, i as int) =~= int_pairs(ws@));
    Some(out)
}

/// `d` occurs in `s` at position `i`.
pub open spec fn match_at(s: Seq<char>, d: Seq<char>, i: int) -> bool {
    0 <= i && i + d.len() <= s.len() && s.subrange(i, i + d.len()) == d
}

/// First position at or after `i` where a non-empty `d` occurs, or -1.
pub open spec fn find_from(s: Seq<char>, d: Seq<char>, i: int) -> int
    decreases s.len() - i,
{
    if i < 0 || d.len() == 0 || i + d.len() > s.len() {
        -1
    } else if match_at(s, d, i) {
        i
    } else {
        find_from(s, d, i + 1)
    }
}

/// Pieces of `s` from `start` on, separated by a non-empty delimiter `d`.
pub open spec fn split_from(s: Seq<char>, d: Seq<char>, start: int) -> Seq<Seq<char>>
    decreases s.len() - start,
{
    let p = find_from(s, d, start);
    if start < 0 || start > s.len() || d.len() == 0 || p < start || p + d.len() > s.len() {
        seq![s.subrange(start, s.len() as int)]
    } else {
        seq![s.subrange(start, p)] + split_from(s, d, p + d.len())
    }
}

/// Pieces of `s` between occurrences of `d`, as `str::split` yields them:
/// an empty delimiter separates every character and both ends.
pub open spec fn split_seq(s: Seq<char>, d: Seq<char>) -> Seq<Seq<char>> {
    if d.len() == 0 {
        seq![Seq::<char>::empty()] + Seq::new(s.len(), |i: int| seq![s[i]]) + seq![
            Seq::<char>::empty(),
        ]
    } else {
        split_from(s, d, 0)
    }
}

fn matches_at(s: &Vec<char>, d: &Vec<char>, i: usize) -> (r: bool)
    requires
        i + d@.len() <= s@.len(),
    ensures
        r == match_at(s@, d@, i as int),
{
    let n = s.len();
    let mut j: usize = 0;
    while j < d.len()
        invariant
            n == s@.len(),
            i + d@.len() <= s@.len(),
            j <= d@.len(),
            forall|k: int| 0 <= k < j ==> s@[i + k] == d@[k],
        decreases d.len() - j,
    {
        if s[i + j] != d[j] {
            assert(s@.subrange(i as int, i + d@.len())[j as int] != d@[j as int]);
            return false;
        }
        j = j + 1;
    }
    assert(s@.subrange(i as int, i + d@.len()) =~= d@);
    true
}

fn copy_range(s: &Vec<char>, a: usize, b: usize) -> (r: Vec<char>)
    requires
        a <= b <= s@.len(),
    ensures
        r@ == s@.subrange(a as int, b as int),
{
    let mut r: Vec<char> = Vec::new();
    let mut i: usize = a;
    while i < b
        invariant
            a <= i <= b <= s@.len(),
            r@ == s@.subrange(a as int, i as int),
        decreases b - i,
    {
        r.push(s[i]);
        i = i + 1;
        assert(r@ =~= s@.subrange(a as int, i as int));
    }
    r
}

pub open spec fn char_seqs(v: Seq<Vec<char>>) -> Seq<Seq<char>> {
    Seq::new(v.len(), |i: int| v[i]@)
}

/// The pieces of `s` between occurrences of `d`.
pub fn split_chars(s: &Vec<char>, d: &Vec<char>) -> (r: Vec<Vec<char>>)
    ensures
        char_seqs(r@) == split_seq(s@, d@),
{
    let n = s.len();
    let mut out: Vec<Vec<char>> = Vec::new();
    if d.len() == 0 {
        out.push(Vec::new());
        let mut i: usize = 0;
        while i < n
            invariant
                n == s@.len(),
                i <= n,
                char_seqs(out@) =~= seq![Seq::<char>::empty()] + Seq::new(
                    i as nat,
                    |k: int| seq![s@[k]],
                ),
            decreases n - i,
        {
            let mut one: Vec<char> = Vec::new();
            one.push(s[i]);
            assert(one@ =~= seq![s@[i as int]]);
            let ghost before = out@;
            out.push(one);
            assert(char_seqs(out@) =~= char_seqs(before).push(seq![s@[i as int]]));
            i = i + 1;
        }
        out.push(Vec::new());
        assert(char_seqs(out@) =~= split_seq(s@, d@));
        return out;
    }
    let m = d.len();
    let mut start: usize = 0;
    let mut i: usize = 0;
    while m <= n - i
        invariant
            n == s@.len(),
            m == d@.len(),
            m > 0,
            start <= i,
            i <= n,
            find_from(s@, d@, start as int) == find_from(s@, d@, i as int),
            char_seqs(out@) + split_from(s@, d@, start as int) == split_from(s@, d@, 0),
        decreases n - i,
    {
        if matches_at(s, d, i) {
            let piece = copy_range(s, start, i);
            let ghost before = out@;
            out.push(piece);
            assert(char_seqs(out@) =~= char_seqs(before).push(s@.subrange(start as int, i as int)));
            assert(split_from(s@, d@, start as int) =~= seq![s@.subrange(start as int, i as int)]
                + split_from(s@, d@, (i + m) as int));
            assert(char_seqs(out@) + split_from(s@, d@, (i + m) as int) =~= char_seqs(before)
                + split_from(s@, d@, start as int));
            start = i + m;
            i = i + m;
        } else {
            i = i + 1;
        }
    }
    let last = copy_range(s, start, n);
    let ghost before = out@;
    out.push(last);
    assert(char_seqs(out@) =~= char_seqs(before) + split_from(s@, d@, start as int));
    out
}

/// Decoded windows of `tokens`, or the decoding error.
pub open spec fn windowed(tokens: Seq<u32>, max: nat, overlap: nat) -> Result<Seq<(nat, Seq<char>)>, ChunkError> {
    match window_texts(tokens, windows(tokens.len(), max, overlap)) {
        Some(x) => Ok(x),
        None => Err(ChunkError::Decode),
    }
}

/// Token counts and texts for one delimited piece: the piece itself when
/// splitting by character only or when it fits in `max` tokens, else its
/// decoded windows.
pub open spec fn piece_texts(p: Seq<char>, only: bool, overlap: nat, max: nat) -> Result<
    Seq<(nat, Seq<char>)>,
    ChunkError,
> {
    match o200k_encode(p) {
        None => Err(ChunkError::Encode),
        Some(t) => if only || t.len() <= max {
            Ok(seq![(t.len(), p)])
        } else {
            windowed(t, max, overlap)
        },
    }
}

/// The pieces' token counts and texts, in order; the first piece's error
/// when one fails.
pub open spec fn pieces_texts(ps: Seq<Seq<char>>, only: bool, overlap: nat, max: nat) -> Result<
    Seq<(nat, Seq<char>)>,
    ChunkError,
>
    decreases ps.len(),
{
    if ps.len() == 0 {
        Ok(Seq::empty())
    } else {
        match pieces_texts(ps.drop_last(), only, overlap, max) {
            Err(e) => Err(e),
            Ok(a) => match piece_texts(ps.last(), only, overlap, max) {
                Err(e) => Err(e),
                Ok(b) => Ok(a + b),
            },
        }
    }
}

/// Token counts and untrimmed texts of the chunks of `content`, or why
/// they cannot be had.
pub open spec fn raw_chunks(
    content: Seq<char>,
    split: Option<Seq<char>>,
    only: bool,
    overlap: nat,
    max: nat,
) -> Result<Seq<(nat, Seq<char>)>, ChunkError> {
    match split {
        None => match o200k_encode(content) {
            None => Err(ChunkError::Encode),
            Some(t) => windowed(t, max, overlap),
        },
        Some(d) => pieces_texts(split_seq(content, d), only, overlap, max),
    }
}

proof fn lemma_pieces_prefix_err(ps: Seq<Seq<char>>, only: bool, overlap: nat, max: nat, k: int, e: ChunkError)
    requires
        0 <= k <= ps.len(),
        pieces_texts(ps.subrange(0, k), only, overlap, max) == Err::<Seq<(nat, Seq<char>)>, ChunkError>(e),
    ensures
        pieces_texts(ps, only, overlap, max) == Err::<Seq<(nat, Seq<char>)>, ChunkError>(e),
    decreases ps.len(),
{
    if k < ps.len() {
        assert(ps.drop_last().subrange(0, k) =~= ps.subrange(0, k));
        lemma_pieces_prefix_err(ps.drop_last(), only, overlap, max, k, e);
    } else {
        assert(ps.subrange(0, k) =~= ps);
    }
}

proof fn lemma_windows_in_range(start: nat, len: nat, max: nat, step: nat)
    ensures
        forall|i: int|
            0 <= i < windows_from(start, len, max, step).len() ==> {
                let w = #[trigger] windows_from(start, len, max, step)[i];
                start <= w.0 <= w.1 <= len
            },
    decreases len - start,
{
    if !(start >= len || step == 0) {
        let end = if start + max < len {
            start + max
        } else {
            len
        };
        if !(end == len || start + step >= len) {
            lemma_windows_in_range(start + step, len, max, step);
            let tail = windows_from(start + step, len, max, step);
            assert forall|i: int| 1 <= i < windows_from(start, len, max, step).len() implies
                windows_from(start, len, max, step)[i] == tail[i - 1] by {}
        }
    }
}

proof fn lemma_windows_bounds(len: nat, max: nat, overlap: nat)
    ensures
        forall|i: int|
            0 <= i < windows(len, max, overlap).len() ==> {
                let w = #[trigger] windows(len, max, overlap)[i];
                0 <= w.0 <= w.1 <= len
            },
{
    lemma_windows_in_range(0, len, max, (max - overlap) as nat);
}

/// A chunk of text with its token count and position.
#[derive(Debug)]
pub struct TokenChunk {
    pub tokens: usize,
    pub content: String,
    pub chunk_order_index: usize,
}

/// Why chunking failed.
#[derive(Debug)]
pub enum ChunkError {
    /// The overlap is not smaller than the window width.
    OverlapTooLarge { overlap: usize, max: usize },
    /// A window of tokens did not decode to text.
    Decode,
    /// The text could not be encoded.
    Encode,
}

/// The chunks that `chunking_by_token_size` returns for given raw chunks.
pub open spec fn token_chunks_match(r: Seq<TokenChunk>, raw: Seq<(nat, Seq<char>)>) -> bool {
    &&& r.len() == raw.len()
    &&& forall|i: int|
        0 <= i < r.len() ==> {
            &&& #[trigger] r[i].tokens == raw[i].0
            &&& r[i].content@ == trim_seq(raw[i].1)
            &&& r[i].chunk_order_index == i
        }
}

fn decoded_windows_of(tok: &TiktokenTokenizer, tokens: &Vec<u32>, overlap: usize, max: usize) -> (r:
    Option<Vec<(usize, String)>>)
    requires
        overlap < max,
    ensures
        match r {
            Some(v) => window_texts(
                tokens@,
                windows(tokens@.len(), max as nat, overlap as nat),
            ) == Some(text_pairs(v@)),
            None => window_texts(tokens@, windows(tokens@.len(), max as nat, overlap as nat)) is None,
        },
{
    let ws = token_windows(tokens.len(), max, overlap);
    proof {
        lemma_windows_bounds(tokens@.len(), max as nat, overlap as nat);
        assert forall|i: int| 0 <= i < ws@.len() implies #[trigger] ws@[i].0 <= ws@[i].1
            <= tokens@.len() by {
            let w = windows(tokens@.len(), max as nat, overlap as nat);
            assert(int_pairs(ws@)[i] == (ws@[i].0 as int, ws@[i].1 as int));
            assert(w[i] == (ws@[i].0 as int, ws@[i].1 as int));
            assert(0 <= w[i].0 <= w[i].1 <= tokens@.len());
        }
    }
    decode_windows(tok, tokens, &ws)
}

fn piece_chunks(tok: &TiktokenTokenizer, p: &Vec<char>, only: bool, overlap: usize, max: usize) -> (r:
    Result<Vec<(usize, String)>, ChunkError>)
    requires
        overlap < max,
    ensures
        match r {
            Ok(v) => piece_texts(p@, only, overlap as nat, max as nat) == Ok::<Seq<(nat, Seq<char>)>, ChunkError>(text_pairs(v@)),
            Err(e) => piece_texts(p@, only, overlap as nat, max as nat) == Err::<Seq<(nat, Seq<char>)>, ChunkError>(e),
        },
{
    let text = string_of(p.as_slice());
    let t = match tok.encode(text.as_str()) {
        Some(t) => t,
        None => {
            return Err(ChunkError::Encode);
        },
    };
    if only || t.len() <= max {
        let mut v: Vec<(usize, String)> = Vec::new();
        v.push((t.len(), text));
        assert(text_pairs(v@) =~= seq![(t@.len(), p@)]);
        Ok(v)
    } else {
        match decoded_windows_of(tok, &t, overlap, max) {
            Some(v) => Ok(v),
            None => Err(ChunkError::Decode),
        }
    }
}

/// Splits `content` into token-bounded chunks.
///
/// Without a delimiter the whole text is encoded and cut into windows of
/// `max_token_size` tokens that overlap by `overlap_token_size`; with one,
/// the text is split at each occurrence and each piece becomes a chunk, or
/// (unless `split_by_character_only`) is windowed when it exceeds
/// `max_token_size` tokens. Each chunk's text is trimmed and chunks are
/// numbered from 0.
pub fn chunking_by_token_size(
    tokenizer: &TiktokenTokenizer,
    content: &str,
    split_by_character: Option<&str>,
    split_by_character_only: bool,
    overlap_token_size: usize,
    max_token_size: usize,
) -> (r: Result<Vec<TokenChunk>, ChunkError>)
    ensures
        overlap_token_size >= max_token_size ==> r == Err::<Vec<TokenChunk>, ChunkError>(
            ChunkError::OverlapTooLarge { overlap: overlap_token_size, max: max_token_size },
        ),
        overlap_token_size < max_token_size ==> match raw_chunks(
            content@,
            match split_by_character {
                Some(d) => Some(d@),
                None => None,
            },
            split_by_character_only,
            overlap_token_size as nat,
            max_token_size as nat,
        ) {
            Ok(raw) => r is Ok && token_chunks_match(r->Ok_0@, raw),
            Err(e) => r == Err::<Vec<TokenChunk>, ChunkError>(e),
        },
{
    if overlap_token_size >= max_token_size {
        return Err(ChunkError::OverlapTooLarge { overlap: overlap_token_size, max: max_token_size });
    }
    let ghost split = match split_by_character {
        Some(d) => Some(d@),
        None => None,
    };
    let raw: Vec<(usize, String)> = match split_by_character {
        None => {
            let tokens = match tokenizer.encode(content) {
                Some(t) => t,
                None => {
                    return Err(ChunkError::Encode);
                },
            };
            match decoded_windows_of(tokenizer, &tokens, overlap_token_size, max_token_size) {
                Some(v) => v,
                None => {
                    return Err(ChunkError::Decode);
                },
            }
        },
        Some(delimiter) => {
            let cs = chars_of(content);
            let ds = chars_of(delimiter);
            let pieces = split_chars(&cs, &ds);
            let ghost ps = char_seqs(pieces@);
            let mut acc: Vec<(usize, String)> = Vec::new();
            let mut i: usize = 0;
            assert(ps.subrange(0, 0) =~= Seq::<Seq<char>>::empty());
            assert(text_pairs(acc@) =~= Seq::<(nat, Seq<char>)>::empty());
            while i < pieces.len()
                invariant
                    overlap_token_size < max_token_size,
                    ps == char_seqs(pieces@),
                    ps == split_seq(content@, delimiter@),
                    split_by_character == Some(delimiter),
                    i <= pieces@.len(),
                    pieces_texts(
                        ps.subrange(0, i as int),
                        split_by_character_only,
                        overlap_token_size as nat,
                        max_token_size as nat,
                    ) == Ok::<Seq<(nat, Seq<char>)>, ChunkError>(text_pairs(acc@)),
                decreases pieces.len() - i,
            {
                let ghost pre = ps.subrange(0, i as int);
                assert(ps.subrange(0, i + 1).drop_last() =~= pre);
                assert(ps.subrange(0, i + 1).last() == pieces@[i as int]@);
                match piece_chunks(
                    tokenizer,
                    &pieces[i],
                    split_by_character_only,
                    overlap_token_size,
                    max_token_size,
                ) {
                    Err(e) => {
                        proof {
                            assert(pieces_texts(
                                ps.subrange(0, i + 1),
                                split_by_character_only,
                                overlap_token_size as nat,
                                max_token_size as nat,
                            ) == Err::<Seq<(nat, Seq<char>)>, ChunkError>(e));
                            lemma_pieces_prefix_err(
                                ps,
                                split_by_character_only,
                                overlap_token_size as nat,
                                max_token_size as nat,
                                i + 1,
                                e,
                            );
                        }
                        return Err(e);
                    },
                    Ok(mut more) => {
                        let ghost before = acc@;
                        let ghost added = more@;
                        acc.append(&mut more);
                        assert(text_pairs(acc@) =~= text_pairs(before) + text_pairs(added));
                    },
                }
                i = i + 1;
            }
            assert(ps.subrange(0, i as int) =~= ps);
            acc
        },
    };
    let ghost raw_spec = text_pairs(raw@);
    assert(raw_chunks(
        content@,
        split,
        split_by_character_only,
        overlap_token_size as nat,
        max_token_size as nat,
    ) == Ok::<Seq<(nat, Seq<char>)>, ChunkError>(raw_spec));
    let mut out: Vec<TokenChunk> = Vec::new();
    let mut k: usize = 0;
    while k < raw.len()
        invariant
            raw_chunks(
                content@,
                split,
                split_by_character_only,
                overlap_token_size as nat,
                max_token_size as nat,
            ) == Ok::<Seq<(nat, Seq<char>)>, ChunkError>(raw_spec),
            k <= raw@.len(),
            raw_spec == text_pairs(raw@),
            out@.len() == k,
            forall|j: int|
                0 <= j < k ==> {
                    &&& #[trigger] out@[j].tokens == raw_spec[j].0
                    &&& out@[j].content@ == trim_seq(raw_spec[j].1)
                    &&& out@[j].chunk_order_index == j
                },
        decreases raw.len() - k,
    {
        let entry = &raw[k];
        let content_k = trim_str(entry.1.as_str());
        assert(raw_spec[k as int] == (raw@[k as int].0 as nat, raw@[k as int].1@));
        assert(content_k@ == trim_seq(raw_spec[k as int].1));
        let ghost before = out@;
        out.push(TokenChunk { tokens: entry.0, content: content_k, chunk_order_index: k });
        assert forall|j: int| 0 <= j < k + 1 implies {
            &&& #[trigger] out@[j].tokens == raw_spec[j].0
            &&& out@[j].content@ == trim_seq(raw_spec[j].1)
            &&& out@[j].chunk_order_index == j
        } by {
            if j < k {
                assert(out@[j] == before[j]);
            } else {
                assert(out@[j].content@ == content_k@);
                assert(out@[j].tokens == raw_spec[j].0);
            }
        }
        k = k + 1;
    }
    assert(token_chunks_match(out@, raw_spec));
    Ok(out)
}

/// A chunk of a document, identified by the digest of its text.
#[derive(Debug)]
pub struct Chunk {
    pub id: String,
    pub content: String,
    pub order: usize,
    pub token_count: usize,
}

/// How a document is cut into chunks.
pub struct ChunkConfig {
    pub max_tokens: usize,
    pub overlap_tokens: usize,
    pub split_by_character: Option<String>,
    pub split_by_character_only: bool,
}

impl Default for ChunkConfig {
    fn default() -> (r: ChunkConfig)
        ensures
            r.max_tokens == 500,
            r.overlap_tokens == 50,
            r.split_by_character is None,
            !r.split_by_character_only,
    {
        ChunkConfig {
            max_tokens: 500,
            overlap_tokens: 50,
            split_by_character: None,
            split_by_character_only: false,
        }
    }
}

impl ChunkConfig {
    pub open spec fn split_spec(&self) -> Option<Seq<char>> {
        match self.split_by_character {
            Some(d) => Some(d@),
            None => None,
        }
    }
}

/// The chunks that `TokenizerChunker::chunk` returns for given raw chunks.
pub open spec fn chunks_match(r: Seq<Chunk>, raw: Seq<(nat, Seq<char>)>) -> bool {
    &&& r.len() == raw.len()
    &&& forall|i: int|
        0 <= i < r.len() ==> {
            &&& #[trigger] r[i].token_count == raw[i].0
            &&& r[i].content@ == trim_seq(raw[i].1)
            &&& r[i].order == i
            &&& r[i].id@ == chunk_id_spec(r[i].content@)
        }
}

/// Cuts documents into chunks with the `o200k_base` tokenizer.
pub struct TokenizerChunker {
    pub tokenizer: TiktokenTokenizer,
}

impl TokenizerChunker {
    pub fn new(tokenizer: TiktokenTokenizer) -> (r: TokenizerChunker)
        ensures
            r.tokenizer == tokenizer,
    {
        TokenizerChunker { tokenizer }
    }

    /// The chunks of `content`, each with its content-addressed id.
    pub fn chunk(&self, content: &str, config: &ChunkConfig) -> (r: Result<Vec<Chunk>, ChunkError>)
        ensures
            config.overlap_tokens >= config.max_tokens ==> r == Err::<Vec<Chunk>, ChunkError>(
                ChunkError::OverlapTooLarge {
                    overlap: config.overlap_tokens,
                    max: config.max_tokens,
                },
            ),
            config.overlap_tokens < config.max_tokens ==> match raw_chunks(
                content@,
                config.split_spec(),
                config.split_by_character_only,
                config.overlap_tokens as nat,
                config.max_tokens as nat,
            ) {
                Ok(raw) => r is Ok && chunks_match(r->Ok_0@, raw),
                Err(e) => r == Err::<Vec<Chunk>, ChunkError>(e),
            },
    {
        let split: Option<&str> = match &config.split_by_character {
            Some(d) => Some(d.as_str()),
            None => None,
        };
        let token_chunks = match chunking_by_token_size(
            &self.tokenizer,
            content,
            split,
            config.split_by_character_only,
            config.overlap_tokens,
            config.max_tokens,
        ) {
            Ok(v) => v,
            Err(e) => {
                return Err(e);
            },
        };
        let ghost raw = raw_chunks(
            content@,
            config.split_spec(),
            config.split_by_character_only,
            config.overlap_tokens as nat,
            config.max_tokens as nat,
        )->Ok_0;
        assert(raw_chunks(
            content@,
            config.split_spec(),
            config.split_by_character_only,
            config.overlap_tokens as nat,
            config.max_tokens as nat,
        ) == Ok::<Seq<(nat, Seq<char>)>, ChunkError>(raw));
        let mut out: Vec<Chunk> = Vec::new();
        let mut i: usize = 0;
        while i < token_chunks.len()
            invariant
                raw_chunks(
                    content@,
                    config.split_spec(),
                    config.split_by_character_only,
                    config.overlap_tokens as nat,
                    config.max_tokens as nat,
                ) == Ok::<Seq<(nat, Seq<char>)>, ChunkError>(raw),
                token_chunks_match(token_chunks@, raw),
                i <= token_chunks@.len(),
                out@.len() == i,
                forall|j: int|
                    0 <= j < i ==> {
                        &&& #[trigger] out@[j].token_count == raw[j].0
                        &&& out@[j].content@ == trim_seq(raw[j].1)
                        &&& out@[j].order == j
                        &&& out@[j].id@ == chunk_id_spec(out@[j].content@)
                    },
            decreases token_chunks.len() - i,
        {
            let tc = &token_chunks[i];
            let id = chunk_id(tc.content.as_str());
            let c = Chunk {
                id,
                content: tc.content.clone(),
                order: tc.chunk_order_index,
                token_count: tc.tokens,
            };
            let ghost before = out@;
            out.push(c);
            assert forall|j: int| 0 <= j < i + 1 implies {
                &&& #[trigger] out@[j].token_count == raw[j].0
                &&& out@[j].content@ == trim_seq(raw[j].1)
                &&& out@[j].order == j
                &&& out@[j].id@ == chunk_id_spec(out@[j].content@)
            } by {
                if j < i {
                    assert(out@[j] == before[j]);
                } else {
                    assert(token_chunks@[j].tokens == raw[j].0);
                    assert(out@[j] == c);
                    assert(c.content@ == token_chunks@[j].content@);
                }
            }
            i = i + 1;
        }
        Ok(out)
    }
}

} // verus!
