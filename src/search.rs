//! Fusion of full-text and vector search hits into one ranked result list.
//!
//! Scores are 32-bit floats, carried here as their IEEE-754 bit patterns and
//! ordered through `score_key`, which agrees with the order of the floats
//! (with `-0.0` equal to `0.0`) and puts NaN last.

use vstd::prelude::*;
use crate::error::ResearchError;

verus! {

/// One search hit: a node, its score as the bits of an `f32`, and a snippet.
pub struct SearchResult {
    pub id: String,
    pub title: String,
    pub score_bits: u32,
    pub snippet: String,
}

pub struct ResultView {
    pub id: Seq<char>,
    pub title: Seq<char>,
    pub score_bits: u32,
    pub snippet: Seq<char>,
}

impl View for SearchResult {
    type V = ResultView;

    open spec fn view(&self) -> ResultView {
        ResultView { id: self.id@, title: self.title@, score_bits: self.score_bits, snippet: self.snippet@ }
    }
}

/// Which searches a query runs.
#[derive(PartialEq, Eq, Structural, Clone, Copy, Debug)]
pub enum SearchMode {
    Fuzzy,
    Semantic,
    Hybrid,
}

pub open spec fn runs_fuzzy(m: SearchMode) -> bool {
    m == SearchMode::Fuzzy || m == SearchMode::Hybrid
}

pub open spec fn runs_semantic(m: SearchMode) -> bool {
    m == SearchMode::Semantic || m == SearchMode::Hybrid
}

/// A total order on `f32` bit patterns that agrees with the order of the
/// numbers they encode; both zeros are equal and every NaN comes below all.
pub open spec fn score_key(bits: u32) -> int {
    if bits & 0x7f80_0000u32 == 0x7f80_0000u32 && bits & 0x007f_ffffu32 != 0 {
        -0x1_0000_0000int
    } else if bits & 0x8000_0000u32 != 0 {
        -((bits & 0x7fff_ffffu32) as int)
    } else {
        bits as int
    }
}

/// The sort key of a score.
pub fn score_key_of(bits: u32) -> (r: i64)
    ensures
        r == score_key(bits),
{
    if bits & 0x7f80_0000u32 == 0x7f80_0000u32 && bits & 0x007f_ffffu32 != 0 {
        -0x1_0000_0000i64
    } else if bits & 0x8000_0000u32 != 0 {
        -((bits & 0x7fff_ffffu32) as i64)
    } else {
        bits as i64
    }
}

/// The hits as mathematical values.
pub open spec fn views(v: Seq<SearchResult>) -> Seq<ResultView> {
    v.map_values(|h: SearchResult| h@)
}

/// The last position of a hit for node `id`, or -1.
pub open spec fn index_of(acc: Seq<ResultView>, id: Seq<char>) -> int
    decreases acc.len(),
{
    if acc.len() == 0 {
        -1
    } else if acc.last().id == id {
        acc.len() - 1
    } else {
        index_of(acc.drop_last(), id)
    }
}

/// Puts hit `r` in place of the hit for the same node, or appends it.
pub open spec fn upsert(acc: Seq<ResultView>, r: ResultView) -> Seq<ResultView> {
    if index_of(acc, r.id) < 0 {
        acc.push(r)
    } else {
        acc.update(index_of(acc, r.id), r)
    }
}

/// Full-text hits, upserted in order.
pub open spec fn fold_fuzzy(acc: Seq<ResultView>, rows: Seq<ResultView>) -> Seq<ResultView>
    decreases rows.len(),
{
    if rows.len() == 0 {
        acc
    } else {
        upsert(fold_fuzzy(acc, rows.drop_last()), rows.last())
    }
}

/// A vector hit takes the snippet of the hit it replaces, or none.
pub open spec fn inherit(acc: Seq<ResultView>, r: ResultView) -> ResultView {
    ResultView {
        snippet: if index_of(acc, r.id) >= 0 {
            acc[index_of(acc, r.id)].snippet
        } else {
            Seq::empty()
        },
        ..r
    }
}

/// Vector hits, upserted in order, each inheriting a snippet.
pub open spec fn fold_semantic(acc: Seq<ResultView>, rows: Seq<ResultView>) -> Seq<ResultView>
    decreases rows.len(),
{
    if rows.len() == 0 {
        acc
    } else {
        let a = fold_semantic(acc, rows.drop_last());
        upsert(a, inherit(a, rows.last()))
    }
}

/// The hits of a query before ranking, one per node, in order of first appearance.
pub open spec fn merged(mode: SearchMode, fuzzy: Seq<ResultView>, semantic: Seq<ResultView>) -> Seq<
    ResultView,
> {
    let a = if runs_fuzzy(mode) {
        fold_fuzzy(Seq::empty(), fuzzy)
    } else {
        Seq::empty()
    };
    if runs_semantic(mode) {
        fold_semantic(a, semantic)
    } else {
        a
    }
}

pub open spec fn ranked(r: Seq<ResultView>) -> bool {
    forall|i: int, j: int| 0 <= i < j < r.len() ==> score_key(#[trigger] r[i].score_bits) >= score_key(#[trigger] r[j].score_bits)
}

pub open spec fn ids(r: Seq<ResultView>) -> Set<Seq<char>> {
    Set::new(|id: Seq<char>| exists|i: int| 0 <= i < r.len() && #[trigger] r[i].id == id)
}

pub open spec fn unique_ids(r: Seq<ResultView>) -> bool {
    forall|i: int, j: int| 0 <= i < j < r.len() ==> #[trigger] r[i].id != #[trigger] r[j].id
}

proof fn lemma_index_of(acc: Seq<ResultView>, id: Seq<char>)
    ensures
        -1 <= index_of(acc, id) < acc.len(),
        index_of(acc, id) >= 0 ==> acc[index_of(acc, id)].id == id,
        index_of(acc, id) < 0 ==> forall|m: int| 0 <= m < acc.len() ==> #[trigger] acc[m].id != id,
    decreases acc.len(),
{
    if acc.len() > 0 {
        lemma_index_of(acc.drop_last(), id);
        if acc.last().id != id && index_of(acc, id) < 0 {
            assert forall|m: int| 0 <= m < acc.len() implies #[trigger] acc[m].id != id by {
                if m < acc.len() - 1 {
                    assert(acc[m] == acc.drop_last()[m]);
                }
            }
        }
    }
}

/// Upserting keeps node ids unique and adds the hit's id.
proof fn lemma_upsert(acc: Seq<ResultView>, r: ResultView)
    requires
        unique_ids(acc),
    ensures
        unique_ids(upsert(acc, r)),
        ids(upsert(acc, r)) == ids(acc).insert(r.id),
{
    lemma_index_of(acc, r.id);
    let u = upsert(acc, r);
    let k = index_of(acc, r.id);
    assert forall|i: int, j: int| 0 <= i < j < u.len() implies #[trigger] u[i].id != #[trigger] u[j].id by {
        if k < 0 {
            if j == acc.len() {
                assert(acc[i].id != r.id);
            }
        } else {
            if i == k {
                assert(acc[j].id != acc[k].id);
            } else if j == k {
                assert(acc[i].id != acc[k].id);
            }
        }
    }
    assert forall|id: Seq<char>| ids(u).contains(id) <==> ids(acc).insert(r.id).contains(id) by {
        if ids(u).contains(id) {
            let i = choose|i: int| 0 <= i < u.len() && #[trigger] u[i].id == id;
            if k >= 0 && i != k {
                assert(u[i] == acc[i]);
            }
            if k < 0 && i < acc.len() {
                assert(u[i] == acc[i]);
            }
        }
        if ids(acc).contains(id) {
            let i = choose|i: int| 0 <= i < acc.len() && #[trigger] acc[i].id == id;
            if k >= 0 && i == k {
                assert(u[k].id == r.id);
            } else {
                assert(u[i] == acc[i]);
            }
        }
        if id == r.id {
            if k < 0 {
                assert(u[acc.len() as int].id == id);
            } else {
                assert(u[k].id == id);
            }
        }
    }
    assert(ids(u) =~= ids(acc).insert(r.id));
}

/// The index of the hit for node `id` in `acc`, scanning from the end.
fn find_hit(acc: &Vec<SearchResult>, id: &String) -> (r: Option<usize>)
    ensures
        match r {
            Some(i) => i as int == index_of(views(acc@), id@),
            None => index_of(views(acc@), id@) < 0,
        },
{
    let ghost v = views(acc@);
    let mut j: usize = acc.len();
    assert(v.take(j as int) =~= v);
    while j > 0
        invariant
            j <= acc.len(),
            v == views(acc@),
            index_of(v, id@) == index_of(v.take(j as int), id@),
        decreases j,
    {
        assert(v.take(j as int).drop_last() =~= v.take(j - 1));
        assert(v.take(j as int).last() == v[j - 1]);
        if acc[j - 1].id == *id {
            return Some(j - 1);
        }
        j = j - 1;
    }
    None
}

fn copy_hit(h: &SearchResult) -> (r: SearchResult)
    ensures
        r@ == h@,
{
    SearchResult { id: h.id.clone(), title: h.title.clone(), score_bits: h.score_bits, snippet: h.snippet.clone() }
}

/// Upserts hit `r` into `acc`.
fn upsert_hit(acc: &mut Vec<SearchResult>, r: SearchResult)
    ensures
        views(final(acc)@) == upsert(views(old(acc)@), r@),
{
    let ghost v = views(old(acc)@);
    match find_hit(acc, &r.id) {
        Some(i) => {
            proof {
                lemma_index_of(v, r@.id);
            }
            acc[i] = r;
            assert(views(acc@) =~= upsert(v, r@));
        },
        None => {
            acc.push(r);
            assert(views(acc@) =~= upsert(v, r@));
        },
    }
}

/// The same hits, possibly in another order.
pub open spec fn same_hits(a: Seq<ResultView>, b: Seq<ResultView>) -> bool {
    &&& a.len() == b.len()
    &&& forall|i: int| 0 <= i < a.len() ==> b.contains(#[trigger] a[i])
    &&& forall|j: int| 0 <= j < b.len() ==> a.contains(#[trigger] b[j])
}

/// `r` is `h` reordered: position `a` of `r` holds hit `src[a]` of `h`, each
/// hit once, and hits of equal score keep their order.
pub open spec fn stable_reorder(r: Seq<ResultView>, h: Seq<ResultView>, src: Seq<int>) -> bool {
    &&& src.len() == r.len()
    &&& forall|a: int| 0 <= a < r.len() ==> 0 <= #[trigger] src[a] < h.len() && r[a] == h[src[a]]
    &&& forall|a: int, c: int| 0 <= a < c < r.len() ==> #[trigger] src[a] != #[trigger] src[c]
    &&& forall|a: int, c: int|
        0 <= a < c < r.len() && score_key(r[a].score_bits) == score_key(r[c].score_bits) ==> #[trigger] src[a]
            < #[trigger] src[c]
}

/// Orders hits by score, highest first; hits of equal score keep their order.
pub fn rank_hits(hits: &Vec<SearchResult>) -> (r: Vec<SearchResult>)
    ensures
        ranked(views(r@)),
        same_hits(views(r@), views(hits@)),
        exists|src: Seq<int>| stable_reorder(views(r@), views(hits@), src),
{
    let ghost hv = views(hits@);
    let mut out: Vec<SearchResult> = Vec::new();
    let mut i: usize = 0;
    let ghost mut src: Seq<int> = Seq::empty();
    while i < hits.len()
        invariant
            i <= hits.len(),
            hv == views(hits@),
            out.len() == i,
            src.len() == i,
            forall|a: int| 0 <= a < i ==> 0 <= #[trigger] src[a] < i && views(out@)[a] == hv[src[a]],
            forall|a: int, c: int| 0 <= a < c < i ==> #[trigger] src[a] != #[trigger] src[c],
            forall|a: int, c: int|
                0 <= a < c < i && score_key(views(out@)[a].score_bits) == score_key(
                    views(out@)[c].score_bits,
                ) ==> #[trigger] src[a] < #[trigger] src[c],
            ranked(views(out@)),
            forall|a: int|
                0 <= a < out.len() ==> exists|b: int|
                    0 <= b < i && hv[b] == #[trigger] views(out@)[a],
            forall|b: int|
                0 <= b < i ==> views(out@).contains(#[trigger] hv[b]),
        decreases hits.len() - i,
    {
        let ghost o = views(out@);
        let x = copy_hit(&hits[i]);
        let kx = score_key_of(x.score_bits);
        let mut pos: usize = 0;
        while pos < out.len() && score_key_of(out[pos].score_bits) >= kx
            invariant
                pos <= out.len(),
                o == views(out@),
                forall|a: int| 0 <= a < pos ==> score_key(#[trigger] o[a].score_bits) >= kx,
            decreases out.len() - pos,
        {
            pos = pos + 1;
        }
        out.insert(pos, x);
        let ghost src0 = src;
        proof {
            src = src.insert(pos as int, i as int);
        }
        let ghost o2 = views(out@);
        assert(o2 =~= o.insert(pos as int, x@));
        assert(x@ == hv[i as int]);
        assert forall|a: int, c: int| 0 <= a < c < o2.len() implies score_key(#[trigger] o2[a].score_bits)
            >= score_key(#[trigger] o2[c].score_bits) by {
            if c < pos {
            } else if c == pos {
            } else if a < pos {
                assert(o2[c] == o[c - 1]);
                if pos < o.len() {
                    assert(score_key(o[pos as int].score_bits) < kx);
                    if c - 1 > pos {
                        assert(score_key(o[pos as int].score_bits) >= score_key(o[c - 1].score_bits));
                    }
                }
            } else if a == pos {
                assert(o2[c] == o[c - 1]);
                assert(score_key(o[pos as int].score_bits) < kx);
                if c - 1 > pos {
                    assert(score_key(o[pos as int].score_bits) >= score_key(o[c - 1].score_bits));
                }
            } else {
                assert(o2[a] == o[a - 1]);
                assert(o2[c] == o[c - 1]);
            }
        }
        assert forall|a: int| 0 <= a < out.len() implies exists|b: int|
            0 <= b < i + 1 && hv[b] == #[trigger] views(out@)[a] by {
            if a < pos {
                assert(o2[a] == o[a]);
            } else if a == pos {
                assert(hv[i as int] == o2[a]);
            } else {
                assert(o2[a] == o[a - 1]);
            }
        }
        assert forall|a: int| 0 <= a < i + 1 implies 0 <= #[trigger] src[a] < i + 1 && views(out@)[a]
            == hv[src[a]] by {
            if a < pos {
                assert(o2[a] == o[a] && src[a] == src0[a]);
            } else if a > pos {
                assert(o2[a] == o[a - 1] && src[a] == src0[a - 1]);
            }
        }
        assert forall|a: int, c: int| 0 <= a < c < i + 1 implies #[trigger] src[a] != #[trigger] src[c] by {
            if a < pos {
                assert(src[a] == src0[a]);
            } else if a > pos {
                assert(src[a] == src0[a - 1]);
            }
            if c < pos {
                assert(src[c] == src0[c]);
            } else if c > pos {
                assert(src[c] == src0[c - 1]);
            }
        }
        assert forall|a: int, c: int|
            0 <= a < c < i + 1 && score_key(views(out@)[a].score_bits) == score_key(
                views(out@)[c].score_bits,
            ) implies #[trigger] src[a] < #[trigger] src[c] by {
            if a < pos {
                assert(src[a] == src0[a] && o2[a] == o[a]);
            } else if a > pos {
                assert(src[a] == src0[a - 1] && o2[a] == o[a - 1]);
            }
            if c < pos {
                assert(src[c] == src0[c] && o2[c] == o[c]);
            } else if c > pos {
                assert(src[c] == src0[c - 1] && o2[c] == o[c - 1]);
                if a == pos {
                    assert(score_key(o[pos as int].score_bits) < kx);
                    if c - 1 > pos {
                        assert(score_key(o[pos as int].score_bits) >= score_key(o[c - 1].score_bits));
                    }
                }
            }
        }
        assert forall|b: int| 0 <= b < i + 1 implies views(out@).contains(
            #[trigger] hv[b],
        ) by {
            if b == i {
                assert(o2[pos as int] == hv[b]);
            } else {
                assert(o.contains(hv[b]));
                let a = choose|a: int| 0 <= a < o.len() && o[a] == hv[b];
                if a < pos {
                    assert(o2[a] == hv[b]);
                } else {
                    assert(o2[a + 1] == hv[b]);
                }
            }
        }
        i = i + 1;
    }
    proof {
        let o = views(out@);
        assert forall|a: int| 0 <= a < o.len() implies hv.contains(#[trigger] o[a]) by {
            let b = choose|b: int| 0 <= b < i && hv[b] == #[trigger] o[a];
        }
        assert(stable_reorder(o, hv, src));
    }
    out
}

/// Ids are kept by upserting a run of full-text hits.
proof fn lemma_fold_fuzzy(acc: Seq<ResultView>, rows: Seq<ResultView>)
    requires
        unique_ids(acc),
    ensures
        unique_ids(fold_fuzzy(acc, rows)),
        ids(fold_fuzzy(acc, rows)) == ids(acc) + ids(rows),
    decreases rows.len(),
{
    if rows.len() == 0 {
        assert(ids(rows) =~= Set::<Seq<char>>::empty());
        assert(ids(acc) + ids(rows) =~= ids(acc));
    } else {
        let pre = rows.drop_last();
        lemma_fold_fuzzy(acc, pre);
        lemma_upsert(fold_fuzzy(acc, pre), rows.last());
        lemma_ids_push(pre, rows.last());
        assert(pre.push(rows.last()) =~= rows);
        assert(ids(acc) + ids(rows) =~= (ids(acc) + ids(pre)).insert(rows.last().id));
    }
}

/// Ids are kept by upserting a run of vector hits.
proof fn lemma_fold_semantic(acc: Seq<ResultView>, rows: Seq<ResultView>)
    requires
        unique_ids(acc),
    ensures
        unique_ids(fold_semantic(acc, rows)),
        ids(fold_semantic(acc, rows)) == ids(acc) + ids(rows),
    decreases rows.len(),
{
    if rows.len() == 0 {
        assert(ids(rows) =~= Set::<Seq<char>>::empty());
        assert(ids(acc) + ids(rows) =~= ids(acc));
    } else {
        let pre = rows.drop_last();
        lemma_fold_semantic(acc, pre);
        let a = fold_semantic(acc, pre);
        lemma_upsert(a, inherit(a, rows.last()));
        lemma_ids_push(pre, rows.last());
        assert(pre.push(rows.last()) =~= rows);
        assert(ids(acc) + ids(rows) =~= (ids(acc) + ids(pre)).insert(rows.last().id));
    }
}

proof fn lemma_ids_push(s: Seq<ResultView>, r: ResultView)
    ensures
        ids(s.push(r)) == ids(s).insert(r.id),
{
    let t = s.push(r);
    assert forall|id: Seq<char>| ids(t).contains(id) <==> ids(s).insert(r.id).contains(id) by {
        if ids(t).contains(id) {
            let i = choose|i: int| 0 <= i < t.len() && #[trigger] t[i].id == id;
            if i < s.len() {
                assert(s[i].id == id);
            }
        }
        if ids(s).contains(id) {
            let i = choose|i: int| 0 <= i < s.len() && #[trigger] s[i].id == id;
            assert(t[i].id == id);
        }
        if id == r.id {
            assert(t[s.len() as int].id == id);
        }
    }
    assert(ids(t) =~= ids(s).insert(r.id));
}

/// The ids of the merged hits: those of the searches the mode runs.
pub proof fn lemma_merged_ids(mode: SearchMode, fuzzy: Seq<ResultView>, semantic: Seq<ResultView>)
    ensures
        unique_ids(merged(mode, fuzzy, semantic)),
        ids(merged(mode, fuzzy, semantic)) == (if runs_fuzzy(mode) {
            ids(fuzzy)
        } else {
            Set::empty()
        }) + (if runs_semantic(mode) {
            ids(semantic)
        } else {
            Set::empty()
        }),
{
    let e = Seq::<ResultView>::empty();
    assert(ids(e) =~= Set::<Seq<char>>::empty());
    lemma_fold_fuzzy(e, fuzzy);
    let a = if runs_fuzzy(mode) {
        fold_fuzzy(e, fuzzy)
    } else {
        e
    };
    lemma_fold_semantic(a, semantic);
    assert(ids(merged(mode, fuzzy, semantic)) =~= (if runs_fuzzy(mode) {
        ids(fuzzy)
    } else {
        Set::empty()
    }) + (if runs_semantic(mode) {
        ids(semantic)
    } else {
        Set::empty()
    }));
}

/// A hybrid search finds every node that a full-text search or a vector
/// search over the same hits finds, and no other.
pub proof fn law_hybrid_covers(fuzzy: Seq<ResultView>, semantic: Seq<ResultView>)
    ensures
        ids(merged(SearchMode::Hybrid, fuzzy, semantic)) == ids(merged(SearchMode::Fuzzy, fuzzy, semantic)) + ids(
            merged(SearchMode::Semantic, fuzzy, semantic),
        ),
        ids(merged(SearchMode::Fuzzy, fuzzy, semantic)) <= ids(merged(SearchMode::Hybrid, fuzzy, semantic)),
        ids(merged(SearchMode::Semantic, fuzzy, semantic)) <= ids(merged(SearchMode::Hybrid, fuzzy, semantic)),
{
    lemma_merged_ids(SearchMode::Hybrid, fuzzy, semantic);
    lemma_merged_ids(SearchMode::Fuzzy, fuzzy, semantic);
    lemma_merged_ids(SearchMode::Semantic, fuzzy, semantic);
    assert(ids(merged(SearchMode::Fuzzy, fuzzy, semantic)) =~= ids(fuzzy));
    assert(ids(merged(SearchMode::Semantic, fuzzy, semantic)) =~= ids(semantic));
}

/// Merges the hits of the searches that `mode` runs, one per node, and ranks
/// them by score, highest first. A full-text hit replaces an earlier hit of
/// its node; a vector hit does too, taking over that hit's snippet (else an
/// empty one).
pub fn fuse_results(mode: SearchMode, fuzzy: &Vec<SearchResult>, semantic: &Vec<SearchResult>) -> (r: Vec<
    SearchResult,
>)
    ensures
        ranked(views(r@)),
        same_hits(views(r@), merged(mode, views(fuzzy@), views(semantic@))),
        exists|src: Seq<int>| stable_reorder(views(r@), merged(mode, views(fuzzy@), views(semantic@)), src),
{
    let ghost fv = views(fuzzy@);
    let ghost sv = views(semantic@);
    let mut acc: Vec<SearchResult> = Vec::new();
    assert(views(acc@) =~= Seq::<ResultView>::empty());
    if mode == SearchMode::Fuzzy || mode == SearchMode::Hybrid {
        let mut i: usize = 0;
        assert(fv.take(0) =~= Seq::<ResultView>::empty());
        while i < fuzzy.len()
            invariant
                i <= fuzzy.len(),
                fv == views(fuzzy@),
                views(acc@) == fold_fuzzy(Seq::empty(), fv.take(i as int)),
            decreases fuzzy.len() - i,
        {
            assert(fv.take(i + 1).drop_last() =~= fv.take(i as int));
            let h = copy_hit(&fuzzy[i]);
            upsert_hit(&mut acc, h);
            i = i + 1;
        }
        assert(fv.take(fuzzy.len() as int) =~= fv);
    }
    let ghost a0 = views(acc@);
    if mode == SearchMode::Semantic || mode == SearchMode::Hybrid {
        let mut i: usize = 0;
        assert(sv.take(0) =~= Seq::<ResultView>::empty());
        while i < semantic.len()
            invariant
                i <= semantic.len(),
                sv == views(semantic@),
                views(acc@) == fold_semantic(a0, sv.take(i as int)),
            decreases semantic.len() - i,
        {
            assert(sv.take(i + 1).drop_last() =~= sv.take(i as int));
            let ghost av = views(acc@);
            let row = &semantic[i];
            let snippet = match find_hit(&acc, &row.id) {
                Some(j) => {
                    proof {
                        lemma_index_of(av, row.id@);
                    }
                    acc[j].snippet.clone()
                },
                None => String::new(),
            };
            let h = SearchResult { id: row.id.clone(), title: row.title.clone(), score_bits: row.score_bits, snippet };
            assert(h@ == inherit(av, sv[i as int]));
            upsert_hit(&mut acc, h);
            i = i + 1;
        }
        assert(sv.take(semantic.len() as int) =~= sv);
    }
    let r = rank_hits(&acc);
    proof {
        let src = choose|src: Seq<int>| stable_reorder(views(r@), views(acc@), src);
        assert(stable_reorder(views(r@), merged(mode, fv, sv), src));
    }
    r
}

/// Reads a search mode: `fuzzy`, `semantic` or `hybrid`; anything else is a
/// `Validation` error.
pub fn parse_mode(mode: &str) -> (r: Result<SearchMode, ResearchError>)
    ensures
        mode@ == "fuzzy"@ ==> r == Ok::<SearchMode, ResearchError>(SearchMode::Fuzzy),
        mode@ == "semantic"@ ==> r == Ok::<SearchMode, ResearchError>(SearchMode::Semantic),
        mode@ == "hybrid"@ ==> r == Ok::<SearchMode, ResearchError>(SearchMode::Hybrid),
        mode@ != "fuzzy"@ && mode@ != "semantic"@ && mode@ != "hybrid"@ ==> r matches Err(
            ResearchError::Validation(_),
        ),
{
    proof {
        reveal_strlit("fuzzy");
        reveal_strlit("semantic");
        reveal_strlit("hybrid");
        assert("semantic"@.len() != "fuzzy"@.len());
        assert("hybrid"@.len() != "fuzzy"@.len());
        assert("hybrid"@.len() != "semantic"@.len());
    }
    let m = String::from_str(mode);
    if m == String::from_str("fuzzy") {
        Ok(SearchMode::Fuzzy)
    } else if m == String::from_str("semantic") {
        Ok(SearchMode::Semantic)
    } else if m == String::from_str("hybrid") {
        Ok(SearchMode::Hybrid)
    } else {
        Err(ResearchError::Validation(String::from_str("unknown search mode")))
    }
}

/// Checks a query before any search runs: an empty query, or a mode other
/// than `fuzzy`, `semantic` and `hybrid`, is a `Validation` error.
pub fn check_query(query: &str, mode: &str) -> (r: Result<SearchMode, ResearchError>)
    ensures
        query@.len() == 0 ==> r matches Err(ResearchError::Validation(_)),
        query@.len() > 0 && mode@ == "fuzzy"@ ==> r == Ok::<SearchMode, ResearchError>(SearchMode::Fuzzy),
        query@.len() > 0 && mode@ == "semantic"@ ==> r == Ok::<SearchMode, ResearchError>(SearchMode::Semantic),
        query@.len() > 0 && mode@ == "hybrid"@ ==> r == Ok::<SearchMode, ResearchError>(SearchMode::Hybrid),
        mode@ != "fuzzy"@ && mode@ != "semantic"@ && mode@ != "hybrid"@ ==> r matches Err(
            ResearchError::Validation(_),
        ),
{
    if query.is_empty() {
        return Err(ResearchError::Validation(String::from_str("empty query")));
    }
    parse_mode(mode)
}

} // verus!
