//! The extractor: walks a chapter's token stream, finds fenced regions
//! tagged as diagrams, and produces one render job per region, in scan
//! order, without rendering anything.

use crate::path::BookPath;
use crate::path::PathView;
use vstd::prelude::*;
use vstd::string::StringExecFns;

verus! {

/// The mathematical value of a [`Token`].
pub ghost enum TokView {
    /// Start of a fenced code block, with its language tag.
    FenceStart(Seq<char>),
    /// End of a code block.
    FenceEnd,
    /// A run of plain text.
    Text(Seq<char>),
    /// Start of a paragraph.
    ParaStart,
    /// Start of an inline image reference, with its destination.
    Image(Seq<char>),
    /// End of an image reference.
    ImageEnd,
    /// End of a paragraph.
    ParaEnd,
    /// Any other event of the host stream, carried through unchanged as a
    /// handle into the caller's own event list.
    Other(nat),
}

/// One event of a chapter's token stream, as this pipeline reads it. The
/// host framework's stream is richer; everything the pipeline does not
/// inspect arrives as [`Token::Other`] and is carried through unchanged.
#[derive(Debug, Clone, PartialEq, Eq)]
pub enum Token {
    /// Start of a fenced code block, with its language tag.
    FenceStart(String),
    /// End of a code block.
    FenceEnd,
    /// A run of plain text.
    Text(String),
    /// Start of a paragraph.
    ParaStart,
    /// Start of an inline image reference, with its destination.
    Image(String),
    /// End of an image reference.
    ImageEnd,
    /// End of a paragraph.
    ParaEnd,
    /// Any other event of the host stream, carried through unchanged as a
    /// handle into the caller's own event list.
    Other(usize),
}

impl View for Token {
    type V = TokView;

    open spec fn view(&self) -> TokView {
        match self {
            Token::FenceStart(lang) => TokView::FenceStart(lang@),
            Token::FenceEnd => TokView::FenceEnd,
            Token::Text(s) => TokView::Text(s@),
            Token::ParaStart => TokView::ParaStart,
            Token::Image(url) => TokView::Image(url@),
            Token::ImageEnd => TokView::ImageEnd,
            Token::ParaEnd => TokView::ParaEnd,
            Token::Other(h) => TokView::Other(*h as nat),
        }
    }
}

impl DeepView for Token {
    type V = TokView;

    open spec fn deep_view(&self) -> TokView {
        self.view()
    }
}

/// The mathematical value of a [`RenderJob`].
pub ghost struct JobView {
    /// The owning chapter's source path.
    pub chapter_path: PathView,
    /// The owning chapter's display name.
    pub chapter_name: Seq<char>,
    /// The owning chapter's section number, when it has one.
    pub section: Option<Seq<u32>>,
    /// The diagram source text.
    pub content: Seq<char>,
    /// The 1-based index of the diagram within its chapter.
    pub diagram_index: nat,
}

/// One unit of rendering work: a diagram region's accumulated source text
/// together with everything needed to name its output and to describe it
/// in messages. Created by the extractor in document order; never changed
/// afterwards.
#[derive(Debug, Clone)]
pub struct RenderJob {
    /// The owning chapter's source path.
    pub chapter_path: BookPath,
    /// The owning chapter's display name.
    pub chapter_name: String,
    /// The owning chapter's section number, when it has one.
    pub section: Option<Vec<u32>>,
    /// The diagram source text.
    pub content: String,
    /// The 1-based index of the diagram within its chapter.
    pub diagram_index: usize,
}

impl View for RenderJob {
    type V = JobView;

    open spec fn view(&self) -> JobView {
        JobView {
            chapter_path: self.chapter_path@,
            chapter_name: self.chapter_name@,
            section: match self.section {
                Some(s) => Some(s@),
                None => None,
            },
            content: self.content@,
            diagram_index: self.diagram_index as nat,
        }
    }
}

impl DeepView for RenderJob {
    type V = JobView;

    open spec fn deep_view(&self) -> JobView {
        self.view()
    }
}

/// Whether a token starts a diagram region: a fenced code block whose
/// language tag is the diagram marker.
pub open spec fn spec_is_d2_start(t: TokView) -> bool {
    t matches TokView::FenceStart(lang) && lang == "d2"@
}

/// Checks whether a token starts a diagram region.
pub fn is_d2_block_start(t: &Token) -> (r: bool)
    ensures
        r == spec_is_d2_start(t@),
{
    match t {
        Token::FenceStart(lang) => {
            let marker = String::from_str("d2");
            *lang == marker
        },
        _ => false,
    }
}

/// The extractor's running state: whether the walk is inside a diagram
/// region, the text accumulated for the current region, the running
/// 1-based region index, and the jobs emitted so far.
pub ghost struct ScanState {
    /// Whether the walk is inside a diagram region.
    pub in_block: bool,
    /// The text accumulated for the current region.
    pub buf: Seq<char>,
    /// The running 1-based region index.
    pub index: nat,
    /// The jobs emitted so far, in scan order.
    pub jobs: Seq<JobView>,
}

/// The extractor's starting state.
pub open spec fn spec_scan_init() -> ScanState {
    ScanState { in_block: false, buf: Seq::empty(), index: 0, jobs: Seq::empty() }
}

/// One step of the extractor. A region start raises the flag, clears the
/// buffer and counts the region; inside a region, text accumulates
/// (several fragments concatenate) and the region end emits one job with
/// the accumulated text; everything else is ignored by this pass.
pub open spec fn spec_scan_step(
    st: ScanState,
    t: TokView,
    path: PathView,
    name: Seq<char>,
    sec: Option<Seq<u32>>,
) -> ScanState {
    if spec_is_d2_start(t) {
        ScanState { in_block: true, buf: Seq::empty(), index: st.index + 1, jobs: st.jobs }
    } else if st.in_block {
        match t {
            TokView::Text(s) => ScanState {
                in_block: st.in_block,
                buf: st.buf + s,
                index: st.index,
                jobs: st.jobs,
            },
            TokView::FenceEnd => ScanState {
                in_block: false,
                buf: Seq::empty(),
                index: st.index,
                jobs: st.jobs.push(
                    JobView {
                        chapter_path: path,
                        chapter_name: name,
                        section: sec,
                        content: st.buf,
                        diagram_index: st.index,
                    },
                ),
            },
            _ => st,
        }
    } else {
        st
    }
}

/// The extractor's state after walking `tokens` from state `st`.
pub open spec fn spec_scan_from(
    tokens: Seq<TokView>,
    st: ScanState,
    path: PathView,
    name: Seq<char>,
    sec: Option<Seq<u32>>,
) -> ScanState
    decreases tokens.len(),
{
    if tokens.len() == 0 {
        st
    } else {
        spec_scan_step(
            spec_scan_from(tokens.drop_last(), st, path, name, sec),
            tokens.last(),
            path,
            name,
            sec,
        )
    }
}

/// The jobs the extractor produces for a chapter's token stream.
pub open spec fn spec_collect_jobs(
    tokens: Seq<TokView>,
    path: PathView,
    name: Seq<char>,
    sec: Option<Seq<u32>>,
) -> Seq<JobView> {
    spec_scan_from(tokens, spec_scan_init(), path, name, sec).jobs
}

/// Walking a concatenation of two streams is walking the first, then the
/// second from the state the first left behind.
pub proof fn lemma_scan_append(
    a: Seq<TokView>,
    b: Seq<TokView>,
    st: ScanState,
    path: PathView,
    name: Seq<char>,
    sec: Option<Seq<u32>>,
)
    ensures
        spec_scan_from(a + b, st, path, name, sec) == spec_scan_from(
            b,
            spec_scan_from(a, st, path, name, sec),
            path,
            name,
            sec,
        ),
    decreases b.len(),
{
    if b.len() == 0 {
        assert(a + b =~= a);
    } else {
        lemma_scan_append(a, b.drop_last(), st, path, name, sec);
        assert((a + b).drop_last() =~= a + b.drop_last());
        assert((a + b).last() == b.last());
    }
}

/// Inside a region, two consecutive text fragments accumulate exactly as
/// one fragment holding their concatenation.
proof fn lemma_step_text_merge(
    st: ScanState,
    x: Seq<char>,
    y: Seq<char>,
    path: PathView,
    name: Seq<char>,
    sec: Option<Seq<u32>>,
)
    ensures
        spec_scan_step(
            spec_scan_step(st, TokView::Text(x), path, name, sec),
            TokView::Text(y),
            path,
            name,
            sec,
        ) == spec_scan_step(st, TokView::Text(x + y), path, name, sec),
{
    if st.in_block {
        assert((st.buf + x) + y =~= st.buf + (x + y));
    }
}

/// A region's text may arrive as several fragments: a stream that
/// delivers a piece of text as two fragments yields the same jobs as the
/// stream that delivers it whole.
pub proof fn lemma_text_fragmentation(
    p: Seq<TokView>,
    x: Seq<char>,
    y: Seq<char>,
    q: Seq<TokView>,
    path: PathView,
    name: Seq<char>,
    sec: Option<Seq<u32>>,
)
    ensures
        spec_collect_jobs(
            p + seq![TokView::Text(x), TokView::Text(y)] + q,
            path,
            name,
            sec,
        ) == spec_collect_jobs(p + seq![TokView::Text(x + y)] + q, path, name, sec),
{
    let st0 = spec_scan_init();
    let frag = seq![TokView::Text(x), TokView::Text(y)];
    let whole = seq![TokView::Text(x + y)];
    let sp = spec_scan_from(p, st0, path, name, sec);
    lemma_scan_append(p + frag, q, st0, path, name, sec);
    lemma_scan_append(p + whole, q, st0, path, name, sec);
    lemma_scan_append(p, frag, st0, path, name, sec);
    lemma_scan_append(p, whole, st0, path, name, sec);
    assert(spec_scan_from(Seq::<TokView>::empty(), sp, path, name, sec) == sp);
    assert(seq![TokView::Text(x)].drop_last() =~= Seq::<TokView>::empty());
    assert(spec_scan_from(seq![TokView::Text(x)], sp, path, name, sec) == spec_scan_step(
        sp,
        TokView::Text(x),
        path,
        name,
        sec,
    ));
    assert(frag.drop_last() =~= seq![TokView::Text(x)]);
    assert(frag.last() == TokView::Text(y));
    assert(spec_scan_from(frag, sp, path, name, sec) == spec_scan_step(
        spec_scan_step(sp, TokView::Text(x), path, name, sec),
        TokView::Text(y),
        path,
        name,
        sec,
    ));
    assert(whole.drop_last() =~= Seq::<TokView>::empty());
    assert(spec_scan_from(whole, sp, path, name, sec) == spec_scan_step(
        sp,
        TokView::Text(x + y),
        path,
        name,
        sec,
    ));
    lemma_step_text_merge(sp, x, y, path, name, sec);
}

/// A well-formed stream: region starts occur only outside a region, and
/// the stream ends outside a region. A code-block end outside a region is
/// an ordinary event of the host stream.
pub open spec fn spec_stream_ok(tokens: Seq<TokView>, in_block: bool) -> bool
    decreases tokens.len(),
{
    if tokens.len() == 0 {
        !in_block
    } else if spec_is_d2_start(tokens[0]) {
        !in_block && spec_stream_ok(tokens.skip(1), true)
    } else if tokens[0] is FenceEnd {
        spec_stream_ok(tokens.skip(1), false)
    } else {
        spec_stream_ok(tokens.skip(1), in_block)
    }
}

/// The index bookkeeping of the walk: from a state whose counter and job
/// list agree, the walk of a well-formed rest of the stream ends outside
/// any region with the counter equal to the number of jobs, and every
/// job's 1-based index equal to its position.
proof fn lemma_scan_indices_from(
    tokens: Seq<TokView>,
    st: ScanState,
    path: PathView,
    name: Seq<char>,
    sec: Option<Seq<u32>>,
)
    requires
        spec_stream_ok(tokens, st.in_block),
        st.in_block ==> st.index == st.jobs.len() + 1,
        !st.in_block ==> st.index == st.jobs.len(),
        forall|k: int| 0 <= k < st.jobs.len() ==> #[trigger] st.jobs[k].diagram_index == k + 1,
    ensures
        ({
            let fin = spec_scan_from(tokens, st, path, name, sec);
            &&& !fin.in_block
            &&& fin.index == fin.jobs.len()
            &&& forall|k: int|
                0 <= k < fin.jobs.len() ==> #[trigger] fin.jobs[k].diagram_index == k + 1
        }),
    decreases tokens.len(),
{
    if tokens.len() == 0 {
    } else {
        let t = tokens[0];
        let st1 = spec_scan_step(st, t, path, name, sec);
        assert(tokens =~= seq![t] + tokens.skip(1));
        lemma_scan_append(seq![t], tokens.skip(1), st, path, name, sec);
        assert(spec_scan_from(Seq::<TokView>::empty(), st, path, name, sec) == st);
        assert(seq![t].drop_last() =~= Seq::<TokView>::empty());
        assert(spec_scan_from(seq![t], st, path, name, sec) == st1);
        if spec_is_d2_start(t) {
            assert(st1.in_block && st1.index == st1.jobs.len() + 1);
        } else if st.in_block && t is FenceEnd {
            assert(st1.jobs.last().diagram_index == st.index);
            assert forall|k: int| 0 <= k < st1.jobs.len() implies #[trigger] st1.jobs[k].diagram_index
                == k + 1 by {
                if k < st.jobs.len() {
                    assert(st1.jobs[k] == st.jobs[k]);
                }
            }
        }
        lemma_scan_indices_from(tokens.skip(1), st1, path, name, sec);
        assert(spec_scan_from(tokens, st, path, name, sec) == spec_scan_from(
            tokens.skip(1),
            st1,
            path,
            name,
            sec,
        ));
    }
}

/// On a well-formed stream the extractor emits one job per region, in
/// scan order, with 1-based indices that are exactly the positions
/// `1..N`, however the regions' text is fragmented.
pub proof fn lemma_extract_indices(
    tokens: Seq<TokView>,
    path: PathView,
    name: Seq<char>,
    sec: Option<Seq<u32>>,
)
    requires
        spec_stream_ok(tokens, false),
    ensures
        ({
            let jobs = spec_collect_jobs(tokens, path, name, sec);
            forall|k: int| 0 <= k < jobs.len() ==> #[trigger] jobs[k].diagram_index == k + 1
        }),
{
    lemma_scan_indices_from(tokens, spec_scan_init(), path, name, sec);
}

/// Copies a section number.
fn clone_section(s: &Option<Vec<u32>>) -> (r: Option<Vec<u32>>)
    ensures
        match (s, r) {
            (Some(a), Some(b)) => a@ == b@,
            (None, None) => true,
            _ => false,
        },
{
    match s {
        Some(v) => {
            let mut out: Vec<u32> = Vec::new();
            let mut i: usize = 0;
            while i < v.len()
                invariant
                    i <= v@.len(),
                    out@ == v@.subrange(0, i as int),
                decreases v@.len() - i,
            {
                out.push(v[i]);
                proof {
                    assert(out@ =~= v@.subrange(0, i + 1 as int));
                }
                i = i + 1;
            }
            proof {
                assert(v@.subrange(0, v@.len() as int) =~= v@);
            }
            Some(out)
        },
        None => None,
    }
}

/// Walks a chapter's token stream and produces one render job per diagram
/// region, in scan order, exactly as [`spec_collect_jobs`] says.
pub fn collect_render_jobs(
    tokens: &Vec<Token>,
    chapter_path: &BookPath,
    chapter_name: &String,
    section: &Option<Vec<u32>>,
) -> (jobs: Vec<RenderJob>)
    ensures
        jobs.deep_view() == spec_collect_jobs(
            tokens.deep_view(),
            chapter_path@,
            chapter_name@,
            match section {
                Some(s) => Some(s@),
                None => None::<Seq<u32>>,
            },
        ),
{
    let ghost path = chapter_path@;
    let ghost name = chapter_name@;
    let ghost sec: Option<Seq<u32>> = match section {
        Some(s) => Some(s@),
        None => None,
    };
    let mut jobs: Vec<RenderJob> = Vec::new();
    let mut in_block: bool = false;
    let mut buf: String = String::new();
    let mut index: usize = 0;
    let mut i: usize = 0;
    proof {
        assert(tokens.deep_view().take(0) =~= Seq::<TokView>::empty());
        assert(jobs.deep_view() =~= Seq::<JobView>::empty());
    }
    while i < tokens.len()
        invariant
            i <= tokens@.len(),
            tokens.deep_view().len() == tokens@.len(),
            index <= i,
            path == chapter_path@,
            name == chapter_name@,
            sec == match section {
                Some(s) => Some(s@),
                None => None::<Seq<u32>>,
            },
            ({
                let st = spec_scan_from(
                    tokens.deep_view().take(i as int),
                    spec_scan_init(),
                    path,
                    name,
                    sec,
                );
                &&& in_block == st.in_block
                &&& buf@ == st.buf
                &&& index as nat == st.index
                &&& jobs.deep_view() == st.jobs
            }),
        decreases tokens@.len() - i,
    {
        let ghost st = spec_scan_from(
            tokens.deep_view().take(i as int),
            spec_scan_init(),
            path,
            name,
            sec,
        );
        proof {
            assert(tokens.deep_view().take(i + 1 as int).drop_last() =~= tokens.deep_view().take(
                i as int,
            ));
            assert(tokens.deep_view().take(i + 1 as int).last() == tokens.deep_view()[i as int]);
        }
        let t = &tokens[i];
        if is_d2_block_start(t) {
            in_block = true;
            buf = String::new();
            index = index + 1;
        } else if in_block {
            match t {
                Token::Text(s) => {
                    buf.append(s.as_str());
                },
                Token::FenceEnd => {
                    in_block = false;
                    let content = buf;
                    buf = String::new();
                    let job = RenderJob {
                        chapter_path: chapter_path.duplicate(),
                        chapter_name: chapter_name.clone(),
                        section: clone_section(section),
                        content,
                        diagram_index: index,
                    };
                    proof {
                        assert(job@.chapter_path == path);
                        assert(job@.chapter_name == name);
                        assert(job@.section == sec);
                        assert(job@.content == st.buf);
                        assert(job@.diagram_index == st.index);
                        assert(job@ == JobView {
                            chapter_path: path,
                            chapter_name: name,
                            section: sec,
                            content: st.buf,
                            diagram_index: st.index,
                        });
                    }
                    jobs.push(job);
                    proof {
                        assert(jobs.deep_view() =~= st.jobs.push(job@));
                    }
                },
                _ => {},
            }
        }
        i = i + 1;
    }
    proof {
        assert(tokens.deep_view().take(tokens@.len() as int) =~= tokens.deep_view());
    }
    jobs
}

} // verus!
