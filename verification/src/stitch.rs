//! The scheduler's verified core: flattening all chapters' jobs into one
//! tagged list, arranging the results that come back in arbitrary
//! completion order into per-chapter, per-job order, and replaying a
//! chapter's token stream with each diagram region replaced by its
//! rendered events.

use crate::extract::JobView;
use crate::extract::RenderJob;
use crate::extract::TokView;
use crate::extract::Token;
use crate::extract::spec_is_d2_start;
use vstd::prelude::*;
use vstd::pervasive::VecAdditionalExecFns;

verus! {

/// The stitcher's running state: whether the walk is inside a diagram
/// region, how many rendered substitutions have been consumed, and the
/// output stream built so far.
pub ghost struct StitchState {
    /// Whether the walk is inside a diagram region.
    pub in_block: bool,
    /// How many rendered substitutions have been consumed.
    pub k: nat,
    /// The output stream built so far.
    pub out: Seq<TokView>,
}

/// One step of the stitcher. A region start raises the flag and is
/// dropped; inside a region everything is dropped, and the region end
/// appends the next rendered substitution (nothing once they are
/// exhausted); everything outside regions is carried through unchanged.
pub open spec fn spec_stitch_step(
    st: StitchState,
    t: TokView,
    rendered: Seq<Seq<TokView>>,
) -> StitchState {
    if spec_is_d2_start(t) {
        StitchState { in_block: true, k: st.k, out: st.out }
    } else if st.in_block {
        match t {
            TokView::FenceEnd => {
                if st.k < rendered.len() {
                    StitchState {
                        in_block: false,
                        k: st.k + 1,
                        out: st.out + rendered[st.k as int],
                    }
                } else {
                    StitchState { in_block: false, k: st.k, out: st.out }
                }
            },
            _ => st,
        }
    } else {
        StitchState { in_block: st.in_block, k: st.k, out: st.out.push(t) }
    }
}

/// The stitcher's state after walking `tokens` from state `st`.
pub open spec fn spec_stitch_from(
    tokens: Seq<TokView>,
    st: StitchState,
    rendered: Seq<Seq<TokView>>,
) -> StitchState
    decreases tokens.len(),
{
    if tokens.len() == 0 {
        st
    } else {
        spec_stitch_step(
            spec_stitch_from(tokens.drop_last(), st, rendered),
            tokens.last(),
            rendered,
        )
    }
}

/// The stitcher's starting state.
pub open spec fn spec_stitch_init() -> StitchState {
    StitchState { in_block: false, k: 0, out: Seq::empty() }
}

/// The stitched stream: the chapter's tokens with the i-th diagram region
/// replaced by the i-th rendered substitution, in original order, and all
/// other tokens carried through unchanged.
pub open spec fn spec_stitch(tokens: Seq<TokView>, rendered: Seq<Seq<TokView>>) -> Seq<TokView> {
    spec_stitch_from(tokens, spec_stitch_init(), rendered).out
}

/// Replays a chapter's token stream, replacing each diagram region with
/// the next rendered substitution, exactly as [`spec_stitch`] says.
pub fn stitch_events(tokens: &Vec<Token>, rendered: Vec<Vec<Token>>) -> (out: Vec<Token>)
    ensures
        out.deep_view() == spec_stitch(tokens.deep_view(), rendered.deep_view()),
{
    let ghost orig = rendered.deep_view();
    let mut rendered = rendered;
    let mut out: Vec<Token> = Vec::new();
    let mut in_block: bool = false;
    let mut k: usize = 0;
    let mut i: usize = 0;
    proof {
        assert(tokens.deep_view().take(0) =~= Seq::<TokView>::empty());
        assert(out.deep_view() =~= Seq::<TokView>::empty());
    }
    while i < tokens.len()
        invariant
            i <= tokens@.len(),
            tokens.deep_view().len() == tokens@.len(),
            k <= orig.len(),
            rendered@.len() == orig.len(),
            forall|j: int| k <= j < orig.len() ==> rendered.deep_view()[j] == orig[j],
            ({
                let st = spec_stitch_from(tokens.deep_view().take(i as int), spec_stitch_init(), orig);
                &&& in_block == st.in_block
                &&& k as nat == st.k
                &&& out.deep_view() == st.out
            }),
        decreases tokens@.len() - i,
    {
        let ghost st = spec_stitch_from(tokens.deep_view().take(i as int), spec_stitch_init(), orig);
        proof {
            assert(tokens.deep_view().take(i + 1 as int).drop_last() =~= tokens.deep_view().take(
                i as int,
            ));
            assert(tokens.deep_view().take(i + 1 as int).last() == tokens.deep_view()[i as int]);
        }
        let t = &tokens[i];
        if crate::extract::is_d2_block_start(t) {
            in_block = true;
        } else if in_block {
            match t {
                Token::FenceEnd => {
                    in_block = false;
                    if k < rendered.len() {
                        let mut taken: Vec<Token> = Vec::new();
                        rendered.set_and_swap(k, &mut taken);
                        proof {
                            assert(taken.deep_view() == orig[k as int]);
                        }
                        out.append(&mut taken);
                        proof {
                            assert(out.deep_view() =~= st.out + orig[k as int]);
                        }
                        k = k + 1;
                    }
                },
                _ => {},
            }
        } else {
            let copy = clone_token(t);
            out.push(copy);
            proof {
                assert(out.deep_view() =~= st.out.push(tokens.deep_view()[i as int]));
            }
        }
        i = i + 1;
    }
    proof {
        assert(tokens.deep_view().take(tokens@.len() as int) =~= tokens.deep_view());
    }
    out
}

/// Copies one token; the copy has the same mathematical value.
fn clone_token(t: &Token) -> (r: Token)
    ensures
        r@ == t@,
{
    match t {
        Token::FenceStart(lang) => Token::FenceStart(lang.clone()),
        Token::FenceEnd => Token::FenceEnd,
        Token::Text(s) => Token::Text(s.clone()),
        Token::ParaStart => Token::ParaStart,
        Token::Image(url) => Token::Image(url.clone()),
        Token::ImageEnd => Token::ImageEnd,
        Token::ParaEnd => Token::ParaEnd,
        Token::Other(h) => Token::Other(*h),
    }
}

/// Walking tokens that hold no region start, from outside any region,
/// appends them to the output unchanged, whatever substitutions stand
/// ready.
proof fn lemma_stitch_plain_from(
    tokens: Seq<TokView>,
    st: StitchState,
    rendered: Seq<Seq<TokView>>,
)
    requires
        !st.in_block,
        forall|i: int| 0 <= i < tokens.len() ==> !spec_is_d2_start(#[trigger] tokens[i]),
    ensures
        spec_stitch_from(tokens, st, rendered) == (StitchState {
            in_block: false,
            k: st.k,
            out: st.out + tokens,
        }),
    decreases tokens.len(),
{
    if tokens.len() == 0 {
        assert(st.out + tokens =~= st.out);
    } else {
        assert forall|i: int| 0 <= i < tokens.drop_last().len() implies !spec_is_d2_start(
            #[trigger] tokens.drop_last()[i],
        ) by {
            assert(tokens.drop_last()[i] == tokens[i]);
        }
        lemma_stitch_plain_from(tokens.drop_last(), st, rendered);
        assert(!spec_is_d2_start(tokens.last()));
        assert((st.out + tokens.drop_last()).push(tokens.last()) =~= st.out + tokens);
    }
}

/// The substitution of diagram regions never touches surrounding
/// content: a stream with no diagram region stitches to itself, whatever
/// substitutions stand ready.
pub proof fn lemma_stitch_keeps_plain_streams(tokens: Seq<TokView>, rendered: Seq<Seq<TokView>>)
    requires
        forall|i: int| 0 <= i < tokens.len() ==> !spec_is_d2_start(#[trigger] tokens[i]),
    ensures
        spec_stitch(tokens, rendered) == tokens,
{
    lemma_stitch_plain_from(tokens, spec_stitch_init(), rendered);
    assert(Seq::<TokView>::empty() + tokens =~= tokens);
}

/// The mathematical value of a [`TaggedJob`].
pub ghost struct TaggedJobView {
    /// Which chapter the job belongs to, by position.
    pub chapter_idx: nat,
    /// The job's 0-based position within its chapter.
    pub job_idx: nat,
    /// The job itself.
    pub job: JobView,
}

/// One job tagged with its chapter's position and its own position within
/// the chapter, so that results can be put back in order however the
/// workers finish.
#[derive(Debug, Clone)]
pub struct TaggedJob {
    /// Which chapter the job belongs to, by position.
    pub chapter_idx: usize,
    /// The job's 0-based position within its chapter.
    pub job_idx: usize,
    /// The job itself.
    pub job: RenderJob,
}

impl View for TaggedJob {
    type V = TaggedJobView;

    open spec fn view(&self) -> TaggedJobView {
        TaggedJobView {
            chapter_idx: self.chapter_idx as nat,
            job_idx: self.job_idx as nat,
            job: self.job@,
        }
    }
}

impl DeepView for TaggedJob {
    type V = TaggedJobView;

    open spec fn deep_view(&self) -> TaggedJobView {
        self.view()
    }
}

/// How many jobs the first `c` chapters hold together: the position in
/// the flattened list where chapter `c`'s jobs begin.
pub open spec fn spec_offsets(jobss: Seq<Seq<JobView>>, c: int) -> int
    decreases c,
{
    if c <= 0 {
        0
    } else {
        spec_offsets(jobss, c - 1) + jobss[c - 1].len()
    }
}

/// Chapter offsets never decrease.
proof fn lemma_offsets_mono(jobss: Seq<Seq<JobView>>, a: int, b: int)
    requires
        0 <= a <= b,
    ensures
        spec_offsets(jobss, a) <= spec_offsets(jobss, b),
    decreases b - a,
{
    if a < b {
        lemma_offsets_mono(jobss, a, b - 1);
    }
}

/// Flattens all chapters' job lists into one list, each job tagged with
/// its chapter's position and its own position within the chapter, in
/// chapter order and, within a chapter, in job order.
pub fn flatten_jobs(chapter_jobs: Vec<Vec<RenderJob>>) -> (r: Vec<TaggedJob>)
    ensures
        ({
            let dv = chapter_jobs.deep_view();
            &&& r.deep_view().len() == spec_offsets(dv, dv.len() as int)
            &&& forall|c: int, j: int|
                0 <= c < dv.len() && 0 <= j < dv[c].len() ==> #[trigger] r.deep_view()[spec_offsets(
                    dv,
                    c,
                ) + j] == (TaggedJobView { chapter_idx: c as nat, job_idx: j as nat, job: dv[c][j] })
        }),
{
    let ghost dv = chapter_jobs.deep_view();
    let mut chapter_jobs = chapter_jobs;
    let mut r: Vec<TaggedJob> = Vec::new();
    let mut c: usize = 0;
    while c < chapter_jobs.len()
        invariant
            c <= chapter_jobs@.len(),
            chapter_jobs.deep_view().len() == dv.len(),
            forall|c2: int| c <= c2 < dv.len() ==> chapter_jobs.deep_view()[c2] == dv[c2],
            r.deep_view().len() == spec_offsets(dv, c as int),
            forall|c2: int, j: int|
                0 <= c2 < c && 0 <= j < dv[c2].len() ==> #[trigger] r.deep_view()[spec_offsets(
                    dv,
                    c2,
                ) + j] == (TaggedJobView {
                    chapter_idx: c2 as nat,
                    job_idx: j as nat,
                    job: dv[c2][j],
                }),
        decreases chapter_jobs@.len() - c,
    {
        let mut row: Vec<RenderJob> = Vec::new();
        chapter_jobs.set_and_swap(c, &mut row);
        proof {
            assert(row.deep_view() == dv[c as int]);
        }
        let ghost row_dv = row.deep_view();
        let row_n = row.len();
        proof {
            assert(row_dv.len() == row_n);
        }
        let mut j: usize = 0;
        while row.len() > 0
            invariant
                row_dv.len() <= usize::MAX,
                j + row@.len() == row_dv.len(),
                c < dv.len(),
                row_dv == dv[c as int],
                forall|j2: int| 0 <= j2 < row@.len() ==> row.deep_view()[j2] == row_dv[j + j2],
                r.deep_view().len() == spec_offsets(dv, c as int) + j,
                forall|c2: int, j2: int|
                    0 <= c2 < c && 0 <= j2 < dv[c2].len() ==> #[trigger] r.deep_view()[spec_offsets(
                        dv,
                        c2,
                    ) + j2] == (TaggedJobView {
                        chapter_idx: c2 as nat,
                        job_idx: j2 as nat,
                        job: dv[c2][j2],
                    }),
                forall|j2: int|
                    0 <= j2 < j ==> #[trigger] r.deep_view()[spec_offsets(dv, c as int) + j2] == (
                    TaggedJobView { chapter_idx: c as nat, job_idx: j2 as nat, job: dv[c as int][j2] }),
            decreases row@.len(),
        {
            let ghost pre = row.deep_view();
            let ghost prev = row@;
            let job = row.remove(0);
            proof {
                assert(pre[0] == row_dv[j as int]);
                assert(job == prev[0]);
                assert(pre[0] == prev[0].deep_view());
                assert(job@ == row_dv[j as int]);
                assert(prev.remove(0) =~= prev.skip(1));
                assert forall|j2: int| 0 <= j2 < row@.len() implies row.deep_view()[j2]
                    == row_dv[j + 1 + j2] by {
                    assert(row@[j2] == prev[j2 + 1]);
                    assert(row.deep_view()[j2] == row@[j2].deep_view());
                    assert(pre[j2 + 1] == row_dv[j + 1 + j2]);
                    assert(pre[j2 + 1] == prev[j2 + 1].deep_view());
                }
            }
            let ghost pre_r = r.deep_view();
            let tagged = TaggedJob { chapter_idx: c, job_idx: j, job };
            proof {
                assert(tagged@ == (TaggedJobView {
                    chapter_idx: c as nat,
                    job_idx: j as nat,
                    job: row_dv[j as int],
                }));
            }
            r.push(tagged);
            proof {
                assert(r.deep_view() =~= pre_r.push(tagged@));
                lemma_offsets_mono(dv, 0, c as int);
                assert forall|c2: int, j2: int|
                    0 <= c2 < c && 0 <= j2 < dv[c2].len() implies #[trigger] r.deep_view()[spec_offsets(
                    dv,
                    c2,
                ) + j2] == (TaggedJobView {
                    chapter_idx: c2 as nat,
                    job_idx: j2 as nat,
                    job: dv[c2][j2],
                }) by {
                    lemma_offsets_mono(dv, 0, c2);
                    lemma_offsets_mono(dv, c2 + 1, c as int);
                    assert(spec_offsets(dv, c2 + 1) == spec_offsets(dv, c2) + dv[c2].len());
                    assert(spec_offsets(dv, c2) + j2 < pre_r.len());
                    assert(r.deep_view()[spec_offsets(dv, c2) + j2] == pre_r[spec_offsets(dv, c2)
                        + j2]);
                }
                assert forall|j2: int|
                    0 <= j2 < j + 1 implies #[trigger] r.deep_view()[spec_offsets(dv, c as int)
                    + j2] == (TaggedJobView {
                    chapter_idx: c as nat,
                    job_idx: j2 as nat,
                    job: dv[c as int][j2],
                }) by {
                    if j2 < j {
                        assert(spec_offsets(dv, c as int) + j2 < pre_r.len());
                        assert(r.deep_view()[spec_offsets(dv, c as int) + j2] == pre_r[spec_offsets(
                            dv,
                            c as int,
                        ) + j2]);
                    } else {
                        assert(r.deep_view()[spec_offsets(dv, c as int) + j2] == tagged@);
                    }
                }
            }
            j = j + 1;
        }
        proof {
            assert(spec_offsets(dv, c + 1 as int) == spec_offsets(dv, c as int)
                + dv[c as int].len());
        }
        c = c + 1;
    }
    r
}

/// Every position below the total job count falls in exactly one
/// chapter's range of the flattened list.
proof fn lemma_offsets_decompose(jobss: Seq<Seq<JobView>>, n: int, p: int)
    requires
        0 <= n <= jobss.len(),
        0 <= p < spec_offsets(jobss, n),
    ensures
        exists|c: int|
            0 <= c < n && #[trigger] spec_offsets(jobss, c) <= p < spec_offsets(jobss, c)
                + jobss[c].len(),
    decreases n,
{
    if p >= spec_offsets(jobss, n - 1) {
        assert(spec_offsets(jobss, n - 1) <= p < spec_offsets(jobss, n - 1) + jobss[n - 1].len());
    } else {
        lemma_offsets_decompose(jobss, n - 1, p);
    }
}

/// The flattened job list never repeats a tag: each job stands at the
/// one position its chapter and job indices address, so every job can
/// report exactly once.
pub proof fn lemma_flatten_tags_unique(r: Seq<TaggedJobView>, jobss: Seq<Seq<JobView>>)
    requires
        r.len() == spec_offsets(jobss, jobss.len() as int),
        forall|c: int, j: int|
            0 <= c < jobss.len() && 0 <= j < jobss[c].len() ==> #[trigger] r[spec_offsets(jobss, c)
                + j] == (TaggedJobView { chapter_idx: c as nat, job_idx: j as nat, job: jobss[c][j] }),
    ensures
        forall|p1: int, p2: int|
            0 <= p1 < r.len() && 0 <= p2 < r.len() && p1 != p2 ==> !(#[trigger] r[p1].chapter_idx
                == #[trigger] r[p2].chapter_idx && r[p1].job_idx == r[p2].job_idx),
{
    assert forall|p1: int, p2: int|
        0 <= p1 < r.len() && 0 <= p2 < r.len() && p1 != p2 implies !(#[trigger] r[p1].chapter_idx
        == #[trigger] r[p2].chapter_idx && r[p1].job_idx == r[p2].job_idx) by {
        lemma_offsets_decompose(jobss, jobss.len() as int, p1);
        lemma_offsets_decompose(jobss, jobss.len() as int, p2);
        let c1 = choose|c: int|
            0 <= c < jobss.len() && #[trigger] spec_offsets(jobss, c) <= p1 < spec_offsets(jobss, c)
                + jobss[c].len();
        let c2 = choose|c: int|
            0 <= c < jobss.len() && #[trigger] spec_offsets(jobss, c) <= p2 < spec_offsets(jobss, c)
                + jobss[c].len();
        let j1 = p1 - spec_offsets(jobss, c1);
        let j2 = p2 - spec_offsets(jobss, c2);
        assert(0 <= j1 < jobss[c1].len());
        assert(0 <= j2 < jobss[c2].len());
        assert(r[spec_offsets(jobss, c1) + j1] == (TaggedJobView {
            chapter_idx: c1 as nat,
            job_idx: j1 as nat,
            job: jobss[c1][j1],
        }));
        assert(r[spec_offsets(jobss, c2) + j2] == (TaggedJobView {
            chapter_idx: c2 as nat,
            job_idx: j2 as nat,
            job: jobss[c2][j2],
        }));
        assert(r[p1].chapter_idx == c1 && r[p1].job_idx == j1);
        assert(r[p2].chapter_idx == c2 && r[p2].job_idx == j2);
        if r[p1].chapter_idx == r[p2].chapter_idx && r[p1].job_idx == r[p2].job_idx {
            assert(c1 == c2);
            assert(j1 == j2);
            assert(false);
        }
    }
}

/// The mathematical value of a [`TaggedResult`].
pub ghost struct TaggedResultView {
    /// Which chapter the result belongs to, by position.
    pub chapter_idx: nat,
    /// The job's 0-based position within its chapter.
    pub job_idx: nat,
    /// The events that replace the job's diagram region.
    pub events: Seq<TokView>,
}

/// One finished job's substitution events, tagged with the chapter's
/// position and the job's position within the chapter. Workers hand
/// these back in whatever order they finish.
#[derive(Debug, Clone)]
pub struct TaggedResult {
    /// Which chapter the result belongs to, by position.
    pub chapter_idx: usize,
    /// The job's 0-based position within its chapter.
    pub job_idx: usize,
    /// The events that replace the job's diagram region.
    pub events: Vec<Token>,
}

impl View for TaggedResult {
    type V = TaggedResultView;

    open spec fn view(&self) -> TaggedResultView {
        TaggedResultView {
            chapter_idx: self.chapter_idx as nat,
            job_idx: self.job_idx as nat,
            events: self.events.deep_view(),
        }
    }
}

impl DeepView for TaggedResult {
    type V = TaggedResultView;

    open spec fn deep_view(&self) -> TaggedResultView {
        self.view()
    }
}

/// The substitution stored for the slot of chapter `c`, job `k`: the
/// events of the last result in the list tagged `(c, k)`, or nothing when
/// none arrived.
pub open spec fn spec_slot(rs: Seq<TaggedResultView>, c: int, k: int) -> Seq<TokView>
    decreases rs.len(),
{
    if rs.len() == 0 {
        Seq::empty()
    } else if rs.last().chapter_idx == c && rs.last().job_idx == k {
        rs.last().events
    } else {
        spec_slot(rs.drop_last(), c, k)
    }
}

/// Arranges the results of all jobs — arriving in arbitrary completion
/// order — into chapter order and, within each chapter, job order.
/// `counts[c]` is the number of jobs chapter `c` holds; a slot no result
/// arrived for stays empty, and a result tagged outside the given shape
/// is dropped.
pub fn arrange_results(counts: &Vec<usize>, results: Vec<TaggedResult>) -> (out: Vec<
    Vec<Vec<Token>>,
>)
    ensures
        out.deep_view().len() == counts@.len(),
        forall|c: int|
            0 <= c < counts@.len() ==> #[trigger] out.deep_view()[c].len() == counts@[c],
        forall|c: int, k: int|
            0 <= c < counts@.len() && 0 <= k < counts@[c] ==> #[trigger] out.deep_view()[c][k]
                == spec_slot(results.deep_view(), c, k),
{
    let ghost rdv = results.deep_view();
    let mut out: Vec<Vec<Vec<Token>>> = Vec::new();
    let mut c: usize = 0;
    while c < counts.len()
        invariant
            c <= counts@.len(),
            out.deep_view().len() == c,
            forall|c2: int| 0 <= c2 < c ==> #[trigger] out.deep_view()[c2].len() == counts@[c2],
            forall|c2: int, k2: int|
                0 <= c2 < c && 0 <= k2 < counts@[c2] ==> #[trigger] out.deep_view()[c2][k2]
                    == Seq::<TokView>::empty(),
        decreases counts@.len() - c,
    {
        let n = counts[c];
        let mut row: Vec<Vec<Token>> = Vec::new();
        let mut k: usize = 0;
        while k < n
            invariant
                k <= n,
                row.deep_view().len() == k,
                forall|k2: int|
                    0 <= k2 < k ==> #[trigger] row.deep_view()[k2] == Seq::<TokView>::empty(),
            decreases n - k,
        {
            let ghost pre = row.deep_view();
            let empty_events: Vec<Token> = Vec::new();
            row.push(empty_events);
            proof {
                assert(row.deep_view() =~~= pre.push(Seq::<TokView>::empty()));
            }
            k = k + 1;
        }
        let ghost pre_out = out.deep_view();
        let ghost row_dv = row.deep_view();
        out.push(row);
        proof {
            assert(out.deep_view() =~~= pre_out.push(row_dv));
        }
        c = c + 1;
    }
    let mut results = results;
    let n0 = results.len();
    let mut i: usize = 0;
    proof {
        assert(rdv.len() == n0);
        assert(rdv.take(0) =~= Seq::<TaggedResultView>::empty());
    }
    while results.len() > 0
        invariant
            rdv.len() <= usize::MAX,
            i + results@.len() == rdv.len(),
            forall|j: int| 0 <= j < results@.len() ==> results.deep_view()[j] == rdv[i + j],
            out.deep_view().len() == counts@.len(),
            forall|c2: int|
                0 <= c2 < counts@.len() ==> #[trigger] out.deep_view()[c2].len() == counts@[c2],
            forall|c2: int, k2: int|
                0 <= c2 < counts@.len() && 0 <= k2 < counts@[c2] ==> #[trigger] out.deep_view()[c2][k2]
                    == spec_slot(rdv.take(i as int), c2, k2),
        decreases results@.len(),
    {
        let ghost pre = results.deep_view();
        let ghost prev = results@;
        let r = results.remove(0);
        proof {
            assert(pre[0] == rdv[i as int]);
            assert(r == prev[0]);
            assert(pre[0] == prev[0].deep_view());
            assert(r@ == rdv[i as int]);
            assert(prev.remove(0) =~= prev.skip(1));
            assert forall|j: int| 0 <= j < results@.len() implies results.deep_view()[j] == rdv[i
                + 1 + j] by {
                assert(results@[j] == prev[j + 1]);
                assert(results.deep_view()[j] == results@[j].deep_view());
                assert(pre[j + 1] == rdv[i + 1 + j]);
                assert(pre[j + 1] == prev[j + 1].deep_view());
            }
            assert(rdv.take(i + 1 as int).drop_last() =~= rdv.take(i as int));
            assert(rdv.take(i + 1 as int).last() == rdv[i as int]);
        }
        let ghost old_out = out.deep_view();
        let ghost old_out_at = out@;
        let ci = r.chapter_idx;
        let ki = r.job_idx;
        let in_range = ci < out.len();
        let mut stored = false;
        if in_range {
            let mut row: Vec<Vec<Token>> = Vec::new();
            out.set_and_swap(ci, &mut row);
            let ghost row1 = row@;
            proof {
                assert(row1 == old_out_at[ci as int]@);
            }
            stored = ki < row.len();
            if stored {
                row.set(ki, r.events);
            }
            out.set_and_swap(ci, &mut row);
            proof {
                assert(out@ =~= old_out_at.update(ci as int, out@[ci as int]));
                if stored {
                    assert(out@[ci as int]@ =~= row1.update(ki as int, r.events));
                    assert(out@[ci as int]@.len() == old_out_at[ci as int]@.len());
                    assert(out@[ci as int]@[ki as int] == r.events);
                    assert(forall|k2: int|
                        0 <= k2 < old_out_at[ci as int]@.len() && k2 != ki
                            ==> #[trigger] out@[ci as int]@[k2] == old_out_at[ci as int]@[k2]);
                } else {
                    assert(out@[ci as int]@ =~= row1);
                    assert(out@[ci as int]@ == old_out_at[ci as int]@);
                    assert(old_out_at[ci as int]@.len() <= ki);
                }
            }
        }
        proof {
            assert forall|c2: int| 0 <= c2 < counts@.len() implies #[trigger] out.deep_view()[c2].len()
                == counts@[c2] by {
                assert(out.deep_view()[c2] == out@[c2].deep_view());
                assert(out@[c2].deep_view().len() == out@[c2]@.len());
                if in_range && c2 == ci {
                    assert(out@[c2]@.len() == old_out_at[c2]@.len());
                } else {
                    assert(out@[c2] == old_out_at[c2]);
                }
                assert(old_out[c2] == old_out_at[c2].deep_view());
                assert(old_out[c2].len() == counts@[c2]);
                assert(old_out_at[c2].deep_view().len() == old_out_at[c2]@.len());
            }
            let next = rdv.take(i + 1 as int);
            assert forall|c2: int, k2: int|
                0 <= c2 < counts@.len() && 0 <= k2 < counts@[c2] implies #[trigger] out.deep_view()[c2][k2]
                == spec_slot(next, c2, k2) by {
                let tag_match = rdv[i as int].chapter_idx == c2 && rdv[i as int].job_idx == k2;
                assert(spec_slot(next, c2, k2) == if tag_match {
                    rdv[i as int].events
                } else {
                    spec_slot(rdv.take(i as int), c2, k2)
                });
                assert(out.deep_view()[c2] == out@[c2].deep_view());
                if in_range && c2 == ci {
                    if stored && k2 == ki {
                        assert(out@[c2]@[k2] == r.events);
                        assert(out@[c2].deep_view()[k2] == r.events.deep_view());
                        assert(tag_match);
                    } else {
                        assert(old_out[c2] == old_out_at[c2].deep_view());
                        assert(old_out[c2].len() == counts@[c2]);
                        assert(old_out_at[c2].deep_view().len() == old_out_at[c2]@.len());
                        assert(old_out_at[c2]@.len() == counts@[c2]);
                        if stored {
                            assert(k2 != ki);
                            assert(!tag_match);
                        } else {
                            assert(counts@[c2] <= ki);
                            assert(!tag_match);
                        }
                        assert(out@[c2]@[k2] == old_out_at[c2]@[k2]);
                        assert(out@[c2].deep_view()[k2] == out@[c2]@[k2].deep_view());
                        assert(old_out[c2][k2] == old_out_at[c2]@[k2].deep_view());
                    }
                } else {
                    assert(out@[c2] == old_out_at[c2]);
                    assert(out.deep_view()[c2] == old_out[c2]);
                    if in_range {
                        assert(c2 != ci);
                        assert(!tag_match);
                    } else {
                        assert(counts@.len() <= ci);
                        assert(!tag_match);
                    }
                }
            }
        }
        i = i + 1;
    }
    proof {
        assert(rdv.take(rdv.len() as int) =~= rdv);
    }
    out
}

/// No two results carry the same chapter-and-job tag: what holds of a
/// run where every job reports exactly once.
pub open spec fn unique_tags(rs: Seq<TaggedResultView>) -> bool {
    forall|i: int, j: int|
        0 <= i < rs.len() && 0 <= j < rs.len() && i != j ==> !(#[trigger] rs[i].chapter_idx
            == #[trigger] rs[j].chapter_idx && rs[i].job_idx == rs[j].job_idx)
}

/// Whether the list holds a result tagged `(c, k)` carrying `e`.
pub open spec fn contains_result(
    rs: Seq<TaggedResultView>,
    c: int,
    k: int,
    e: Seq<TokView>,
) -> bool {
    exists|i: int|
        0 <= i < rs.len() && #[trigger] rs[i] == (TaggedResultView {
            chapter_idx: c as nat,
            job_idx: k as nat,
            events: e,
        })
}

/// When some result is tagged `(c, k)`, the slot holds a value that is in
/// the list under that tag.
proof fn lemma_slot_found(rs: Seq<TaggedResultView>, c: int, k: int)
    requires
        0 <= c,
        0 <= k,
        exists|i: int|
            0 <= i < rs.len() && #[trigger] rs[i].chapter_idx == c && rs[i].job_idx == k,
    ensures
        contains_result(rs, c, k, spec_slot(rs, c, k)),
    decreases rs.len(),
{
    if rs.last().chapter_idx == c && rs.last().job_idx == k {
        assert(rs[rs.len() - 1] == (TaggedResultView {
            chapter_idx: c as nat,
            job_idx: k as nat,
            events: spec_slot(rs, c, k),
        }));
    } else {
        let w = choose|i: int|
            0 <= i < rs.len() && #[trigger] rs[i].chapter_idx == c && rs[i].job_idx == k;
        assert(w < rs.len() - 1);
        assert(rs.drop_last()[w] == rs[w]);
        lemma_slot_found(rs.drop_last(), c, k);
        let e = spec_slot(rs.drop_last(), c, k);
        let w2 = choose|i: int|
            0 <= i < rs.drop_last().len() && #[trigger] rs.drop_last()[i] == (TaggedResultView {
                chapter_idx: c as nat,
                job_idx: k as nat,
                events: e,
            });
        assert(rs[w2] == rs.drop_last()[w2]);
    }
}

/// With unique tags, the slot for `(c, k)` is exactly the one result
/// carried under that tag.
proof fn lemma_slot_unique(rs: Seq<TaggedResultView>, c: int, k: int, e: Seq<TokView>)
    requires
        0 <= c,
        0 <= k,
        unique_tags(rs),
        contains_result(rs, c, k, e),
    ensures
        spec_slot(rs, c, k) == e,
    decreases rs.len(),
{
    let w = choose|i: int|
        0 <= i < rs.len() && #[trigger] rs[i] == (TaggedResultView {
            chapter_idx: c as nat,
            job_idx: k as nat,
            events: e,
        });
    if rs.last().chapter_idx == c && rs.last().job_idx == k {
        assert(rs[w].chapter_idx == c && rs[w].job_idx == k);
        if w != rs.len() - 1 {
            assert(rs[w].chapter_idx == rs[rs.len() - 1].chapter_idx && rs[w].job_idx == rs[rs.len()
                - 1].job_idx);
            assert(false);
        }
        assert(spec_slot(rs, c, k) == rs.last().events);
    } else {
        assert(w < rs.len() - 1);
        assert(rs.drop_last()[w] == rs[w]);
        assert(unique_tags(rs.drop_last())) by {
            assert forall|i: int, j: int|
                0 <= i < rs.drop_last().len() && 0 <= j < rs.drop_last().len() && i != j implies !(
                #[trigger] rs.drop_last()[i].chapter_idx == #[trigger] rs.drop_last()[j].chapter_idx
                    && rs.drop_last()[i].job_idx == rs.drop_last()[j].job_idx) by {
                assert(rs.drop_last()[i] == rs[i]);
                assert(rs.drop_last()[j] == rs[j]);
            }
        }
        lemma_slot_unique(rs.drop_last(), c, k, e);
    }
}

/// Order preservation of the fan-in: two runs whose workers hand the
/// same per-job results back in different orders fill every slot alike —
/// the stitched document does not depend on completion order.
pub proof fn lemma_fanin_order_insensitive(
    rs1: Seq<TaggedResultView>,
    rs2: Seq<TaggedResultView>,
    c: int,
    k: int,
)
    requires
        0 <= c,
        0 <= k,
        unique_tags(rs1),
        unique_tags(rs2),
        forall|e: Seq<TokView>|
            contains_result(rs1, c, k, e) <==> #[trigger] contains_result(rs2, c, k, e),
        exists|i: int|
            0 <= i < rs1.len() && #[trigger] rs1[i].chapter_idx == c && rs1[i].job_idx == k,
    ensures
        spec_slot(rs1, c, k) == spec_slot(rs2, c, k),
{
    lemma_slot_found(rs1, c, k);
    lemma_slot_unique(rs2, c, k, spec_slot(rs1, c, k));
}

} // verus!
