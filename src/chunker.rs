//! Word-count chunking: a text is cut into runs of whole words.

use vstd::prelude::*;

verus! {

/// The words of a text joined by single spaces.
pub open spec fn join_words(ws: Seq<Seq<char>>) -> Seq<char>
    decreases ws.len(),
{
    if ws.len() == 0 {
        Seq::empty()
    } else if ws.len() == 1 {
        ws[0]
    } else {
        join_words(ws.drop_last()) + seq![' '] + ws.last()
    }
}

/// How many chunks of `n` words (the last one possibly shorter) `len` words make.
pub open spec fn chunk_count(len: nat, n: nat) -> nat
    decreases len,
{
    if n == 0 || len == 0 {
        0
    } else if len <= n {
        1
    } else {
        1 + chunk_count((len - n) as nat, n)
    }
}

/// Chunk `j` of a text cut into runs of `n` words.
pub open spec fn word_chunk(ws: Seq<Seq<char>>, n: nat, j: int) -> Seq<char> {
    let lo = j * n;
    let hi = if j * n + n <= ws.len() { j * n + n } else { ws.len() as int };
    join_words(ws.subrange(lo, hi))
}

/// Words per chunk for a token budget: three quarters of it, and at least one.
pub open spec fn words_per_chunk(target_token_count: nat) -> nat {
    if target_token_count * 3 / 4 == 0 {
        1
    } else {
        target_token_count * 3 / 4
    }
}

/// Whether a character has the Unicode `White_Space` property.
pub open spec fn is_white_space(c: char) -> bool {
    let u = c as u32;
    (0x09 <= u && u <= 0x0d) || u == 0x20 || u == 0x85 || u == 0xa0 || u == 0x1680 || (0x2000 <= u
        && u <= 0x200a) || u == 0x2028 || u == 0x2029 || u == 0x202f || u == 0x205f || u == 0x3000
}

/// The words of a text: its maximal runs of characters that are not white
/// space, in order.
pub open spec fn words_of(text: Seq<char>) -> Seq<Seq<char>>
    decreases text.len(),
{
    if text.len() == 0 {
        Seq::empty()
    } else if is_white_space(text[0]) {
        words_of(text.skip(1))
    } else if text.len() > 1 && !is_white_space(text[1]) {
        let rest = words_of(text.skip(1));
        rest.update(0, seq![text[0]] + rest[0])
    } else {
        seq![seq![text[0]]] + words_of(text.skip(1))
    }
}

/// Relies on `str::split_whitespace`: the maximal runs of non-whitespace
/// characters of `text`, in order.
#[verifier::external_body]
fn split_words(text: &str) -> (r: Vec<String>)
    ensures
        r@.map_values(|w: String| w@) == words_of(text@),
{
    text.split_whitespace().map(String::from).collect()
}

proof fn lemma_chunk_count(k: nat, n: nat, c: nat)
    requires
        n > 0,
        c <= n,
    ensures
        chunk_count(k * n + c, n) == if c > 0 { k + 1 } else { k },
    decreases k,
{
    if k > 0 {
        assert(k * n + c - n == (k - 1) * n + c) by (nonlinear_arith)
            requires
                k > 0,
        ;
        assert(k * n + c > n || (k == 1 && c == 0)) by (nonlinear_arith)
            requires
                k > 0,
                n > 0,
        ;
        lemma_chunk_count((k - 1) as nat, n, c);
        if k == 1 && c == 0 {
            assert(k * n + c == n) by (nonlinear_arith)
                requires
                    k == 1,
                    c == 0,
            ;
        }
    } else {
        assert(k * n + c == c) by (nonlinear_arith)
            requires
                k == 0,
        ;
    }
}

/// Cuts a list of words into chunks of `n` words each (the last one may be
/// shorter), each chunk being its words joined by single spaces.
pub fn chunk_words(words: &Vec<String>, n: usize) -> (r: Vec<String>)
    requires
        n > 0,
    ensures
        r.len() == chunk_count(words.len() as nat, n as nat),
        forall|j: int|
            0 <= j < r.len() ==> #[trigger] r[j]@ == word_chunk(
                words@.map_values(|w: String| w@),
                n as nat,
                j,
            ),
{
    let ghost ws = words@.map_values(|w: String| w@);
    let mut chunks: Vec<String> = Vec::new();
    let mut current = String::new();
    let mut count: usize = 0;
    let mut i: usize = 0;
    assert(0 * n == 0) by (nonlinear_arith);
    while i < words.len()
        invariant
            ws == words@.map_values(|w: String| w@),
            n > 0,
            i <= words.len(),
            count < n,
            count <= i,
            i - count == chunks.len() * n,
            current@ == join_words(ws.subrange(i - count, i as int)),
            forall|j: int|
                0 <= j < chunks.len() ==> #[trigger] chunks[j]@ == word_chunk(ws, n as nat, j),
        decreases words.len() - i,
    {
        let start: Ghost<int> = Ghost((i - count) as int);
        assert(ws[i as int] == words@[i as int]@);
        assert(ws.subrange(start@, i + 1).len() == count + 1);
        if count > 0 {
            proof {
                reveal_strlit(" ");
            }
            current.append(" ");
        }
        current.append(words[i].as_str());
        assert(ws.subrange(start@, i + 1).drop_last() =~= ws.subrange(start@, i as int));
        assert(ws.subrange(start@, i + 1).last() == ws[i as int]);
        if count == 0 {
            assert(ws.subrange(start@, i + 1) =~= seq![ws[i as int]]);
        }
        assert(join_words(ws.subrange(start@, i + 1)) == current@);
        count = count + 1;
        i = i + 1;
        if count >= n {
            let ghost k = chunks.len();
            assert((k + 1) * n == k * n + n) by (nonlinear_arith);
            assert(start@ == k * n);
            assert(ws.len() == words.len());
            assert(word_chunk(ws, n as nat, k as int) == current@);
            chunks.push(current);
            current = String::new();
            count = 0;
            assert forall|j: int| 0 <= j < chunks.len() implies #[trigger] chunks[j]@ == word_chunk(
                ws,
                n as nat,
                j,
            ) by {
                if j < k {
                    assert(chunks[j] == chunks@[j]);
                }
            }
            assert(ws.subrange(i as int, i as int) =~= Seq::<Seq<char>>::empty());
        }
    }
    let ghost k = chunks.len();
    proof {
        lemma_chunk_count(k as nat, n as nat, count as nat);
    }
    if count > 0 {
        assert(k * n + n > words.len());
        assert(word_chunk(ws, n as nat, k as int) == current@);
        chunks.push(current);
    }
    chunks
}

/// Cuts `text` into chunks of whole words: three quarters of
/// `target_token_count` words per chunk (at least one), the last chunk
/// possibly shorter, the words of a chunk joined by single spaces.
pub fn chunk_text(text: &str, target_token_count: usize) -> (r: Vec<String>)
    ensures
        r.len() == chunk_count(
            words_of(text@).len(),
            words_per_chunk(target_token_count as nat),
        ),
        forall|j: int|
            0 <= j < r.len() ==> #[trigger] r[j]@ == word_chunk(
                words_of(text@),
                words_per_chunk(target_token_count as nat),
                j,
            ),
{
    let words = split_words(text);
    let quarter = target_token_count / 4;
    let rest = target_token_count % 4;
    let mut n: usize = quarter * 3 + rest * 3 / 4;
    assert(n == target_token_count * 3 / 4) by (nonlinear_arith)
        requires
            quarter == target_token_count / 4,
            rest == target_token_count % 4,
            n == quarter * 3 + rest * 3 / 4,
    ;
    if n == 0 {
        n = 1;
    }
    assert(words@.map_values(|w: String| w@).len() == words.len());
    chunk_words(&words, n)
}

} // verus!
