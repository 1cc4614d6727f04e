//! Naming of output artifacts: the context a diagram is rendered in, and
//! the deterministic, collision-free filename computed from it.

use crate::path::part_ok;
use crate::path::BookPath;
use crate::path::PathView;
use crate::path::spec_render;
use crate::text::dec_u64;
use crate::text::fnv_hash_str;
use crate::text::hex8_u64;
use crate::text::is_dec_digit;
use crate::text::is_hex_digit;
use crate::text::lemma_dec_digits;
use crate::text::lemma_hex_digits;
use crate::text::spec_dec;
use crate::text::spec_fnv;
use crate::text::spec_hex;
use crate::text::spec_hex8;
use vstd::prelude::*;
use vstd::string::StringExecFns;

verus! {

/// The mathematical value of a [`RenderContext`].
pub ghost struct CtxView {
    /// The chapter's source path, relative to the book's source root.
    pub path: PathView,
    /// The chapter's display name.
    pub chapter: Seq<char>,
    /// The chapter's hierarchical section number, when it has one.
    pub section: Option<Seq<u32>>,
    /// The 1-based index of the diagram within its chapter.
    pub diagram_index: nat,
}

/// Everything needed to name a diagram's output file and to describe the
/// diagram in messages: the owning chapter's path, display name and
/// section number, and the diagram's index within the chapter.
#[derive(Debug, Clone)]
pub struct RenderContext {
    /// The chapter's source path, relative to the book's source root.
    pub path: BookPath,
    /// The chapter's display name.
    pub chapter: String,
    /// The chapter's hierarchical section number, when it has one.
    pub section: Option<Vec<u32>>,
    /// The 1-based index of the diagram within its chapter.
    pub diagram_index: usize,
}

impl View for RenderContext {
    type V = CtxView;

    open spec fn view(&self) -> CtxView {
        CtxView {
            path: self.path@,
            chapter: self.chapter@,
            section: match self.section {
                Some(s) => Some(s@),
                None => None,
            },
            diagram_index: self.diagram_index as nat,
        }
    }
}

impl RenderContext {
    /// Creates a new [`RenderContext`].
    pub fn new(path: BookPath, chapter: String, section: Option<Vec<u32>>, diagram_index: usize) -> (r:
        RenderContext)
        ensures
            r@.path == path@,
            r@.chapter == chapter@,
            r@.section == match section {
                Some(s) => Some(s@),
                None => None::<Seq<u32>>,
            },
            r@.diagram_index == diagram_index as nat,
    {
        RenderContext { path, chapter, section, diagram_index }
    }
}

/// The rendering of a section number: each part followed by a dot
/// (`1.2.`); a section number with no parts renders as `0`.
pub open spec fn spec_section_string(sec: Seq<u32>) -> Seq<char>
    decreases sec.len(),
{
    if sec.len() == 0 {
        spec_dec(0)
    } else if sec.len() == 1 {
        spec_dec(sec[0] as nat) + seq!['.']
    } else {
        spec_section_string(sec.drop_last()) + spec_dec(sec.last() as nat) + seq!['.']
    }
}

/// The filename of a diagram's output image. A numbered chapter gives
/// `1.2.3.png` (section `1.2`, diagram 3); an unnumbered one gives
/// `<hash>_3.png`, where the hash is a pure function of the chapter's
/// path, so that unnumbered chapters with different paths do not collide
/// and repeated runs name the file alike.
pub open spec fn spec_filename(v: CtxView) -> Seq<char> {
    match v.section {
        Some(sec) => spec_section_string(sec) + spec_dec(v.diagram_index) + ".png"@,
        None => spec_hex8(spec_fnv(spec_render(v.path)) as nat) + "_"@ + spec_dec(v.diagram_index)
            + ".png"@,
    }
}

/// Computes the output filename of a diagram, as [`spec_filename`] says.
pub fn filename(ctx: &RenderContext) -> (r: String)
    ensures
        r@ == spec_filename(ctx@),
{
    match &ctx.section {
        Some(sec) => {
            let mut s = String::new();
            if sec.len() == 0 {
                s = dec_u64(0);
                proof {
                    assert(s@ =~= spec_section_string(ctx@.section.unwrap()));
                }
            } else {
                let mut i: usize = 0;
                proof {
                    assert(s@ =~= Seq::<char>::empty());
                }
                while i < sec.len()
                    invariant
                        i <= sec@.len(),
                        sec@.len() > 0,
                        s@ == spec_section_partial(sec@, i as int),
                    decreases sec@.len() - i,
                {
                    s = s.concat(dec_u64(sec[i] as u64).as_str());
                    s.append(".");
                    proof {
                        reveal_strlit(".");
                        assert("."@ =~= seq!['.']);
                        assert(s@ =~= spec_section_partial(sec@, i + 1 as int));
                    }
                    i = i + 1;
                }
                proof {
                    lemma_section_partial_full(sec@, sec@.len() as int);
                    assert(sec@.subrange(0, sec@.len() as int) =~= sec@);
                    assert(s@ == spec_section_string(sec@));
                }
            }
            let r = s.concat(dec_u64(ctx.diagram_index as u64).as_str()).concat(".png");
            proof {
                assert(r@ =~= spec_filename(ctx@));
            }
            r
        },
        None => {
            let rendered = ctx.path.to_string();
            let hash = fnv_hash_str(rendered.as_str());
            let r = hex8_u64(hash).concat("_").concat(
                dec_u64(ctx.diagram_index as u64).as_str(),
            ).concat(".png");
            proof {
                assert(r@ =~= spec_filename(ctx@));
            }
            r
        },
    }
}

/// A character that can occur in a numbered chapter's filename: a decimal
/// digit, a dot, or a letter of the `png` extension. Never an underscore
/// and never a path separator.
pub open spec fn numbered_filename_char(c: char) -> bool {
    is_dec_digit(c) || c == '.' || c == 'p' || c == 'n' || c == 'g'
}

/// Every character of a section rendering is a digit or a dot.
proof fn lemma_section_chars(sec: Seq<u32>)
    ensures
        forall|i: int|
            0 <= i < spec_section_string(sec).len() ==> is_dec_digit(
                #[trigger] spec_section_string(sec)[i],
            ) || spec_section_string(sec)[i] == '.',
    decreases sec.len(),
{
    let s = spec_section_string(sec);
    if sec.len() == 0 {
        lemma_dec_digits(0);
    } else if sec.len() == 1 {
        lemma_dec_digits(sec[0] as nat);
        assert forall|i: int| 0 <= i < s.len() implies is_dec_digit(#[trigger] s[i]) || s[i]
            == '.' by {
            if i < spec_dec(sec[0] as nat).len() {
                assert(s[i] == spec_dec(sec[0] as nat)[i]);
            } else {
                assert(s[i] == '.');
            }
        }
    } else {
        lemma_section_chars(sec.drop_last());
        lemma_dec_digits(sec.last() as nat);
        let pre = spec_section_string(sec.drop_last());
        let mid = spec_dec(sec.last() as nat);
        assert forall|i: int| 0 <= i < s.len() implies is_dec_digit(#[trigger] s[i]) || s[i]
            == '.' by {
            if i < pre.len() {
                assert(s[i] == pre[i]);
            } else if i < pre.len() + mid.len() {
                assert(s[i] == mid[i - pre.len()]);
            } else {
                assert(s[i] == '.');
            }
        }
    }
}

/// Every character of a numbered chapter's filename is a digit, a dot or
/// a letter of the extension.
pub proof fn lemma_numbered_filename_chars(v: CtxView)
    requires
        v.section matches Some(_),
    ensures
        forall|i: int|
            0 <= i < spec_filename(v).len() ==> numbered_filename_char(
                #[trigger] spec_filename(v)[i],
            ),
{
    reveal_strlit(".png");
    let sec = v.section.unwrap();
    let s = spec_filename(v);
    let pre = spec_section_string(sec);
    let mid = spec_dec(v.diagram_index);
    lemma_section_chars(sec);
    lemma_dec_digits(v.diagram_index);
    assert(".png"@.len() == 4);
    assert forall|i: int| 0 <= i < s.len() implies numbered_filename_char(#[trigger] s[i]) by {
        if i < pre.len() {
            assert(s[i] == pre[i]);
        } else if i < pre.len() + mid.len() {
            assert(s[i] == mid[i - pre.len()]);
        } else {
            assert(s[i] == ".png"@[i - pre.len() - mid.len()]);
        }
    }
}

/// The filename is a function of the chapter's path, its section number
/// and the diagram's index alone: two contexts that agree on those agree
/// on the filename, within a run and across runs.
pub proof fn lemma_filename_deterministic(a: CtxView, b: CtxView)
    requires
        a.path == b.path,
        a.section == b.section,
        a.diagram_index == b.diagram_index,
    ensures
        spec_filename(a) == spec_filename(b),
{
}

/// A numbered chapter's filename never collides with an unnumbered
/// chapter's: the hash-based name holds an underscore where the numbered
/// name, made of digits, dots and the extension, cannot.
pub proof fn lemma_numbered_hashed_distinct(a: CtxView, b: CtxView)
    requires
        a.section matches Some(_),
        b.section is None,
    ensures
        spec_filename(a) != spec_filename(b),
{
    reveal_strlit("_");
    let fa = spec_filename(a);
    let fb = spec_filename(b);
    let h = spec_hex8(spec_fnv(spec_render(b.path)) as nat);
    assert(fb[h.len() as int] == '_');
    if fa == fb {
        lemma_numbered_filename_chars(a);
        assert(numbered_filename_char(fa[h.len() as int]));
        assert(fa[h.len() as int] == '_');
        assert(false);
    }
}

/// A filename is an acceptable single path component: non-empty, with no
/// separator in it.
pub proof fn lemma_filename_part_ok(v: CtxView)
    ensures
        part_ok(spec_filename(v)),
{
    reveal_strlit(".png");
    reveal_strlit("_");
    let s = spec_filename(v);
    assert(".png"@.len() == 4);
    match v.section {
        Some(sec) => {
            lemma_numbered_filename_chars(v);
            assert(s.len() > 0);
            assert forall|i: int| 0 <= i < s.len() implies s[i] != '/' by {
                assert(numbered_filename_char(s[i]));
            }
        },
        None => {
            let h = spec_hex8(spec_fnv(spec_render(v.path)) as nat);
            let hash_full = spec_hex(spec_fnv(spec_render(v.path)) as nat);
            let mid = spec_dec(v.diagram_index);
            lemma_hex_digits(spec_fnv(spec_render(v.path)) as nat);
            lemma_dec_digits(v.diagram_index);
            assert(s.len() > 0);
            assert forall|i: int| 0 <= i < s.len() implies s[i] != '/' by {
                if i < h.len() {
                    assert(s[i] == h[i]);
                    assert(h[i] == hash_full[i]);
                    assert(is_hex_digit(hash_full[i]));
                } else if i < h.len() + 1 {
                    assert(s[i] == '_');
                } else if i < h.len() + 1 + mid.len() {
                    assert(s[i] == mid[i - h.len() - 1]);
                } else {
                    assert(s[i] == ".png"@[i - h.len() - 1 - mid.len()]);
                }
            }
        },
    }
}

/// The rendering of the first `i` parts of a non-empty section number.
pub open spec fn spec_section_partial(sec: Seq<u32>, i: int) -> Seq<char>
    decreases i,
{
    if i <= 0 {
        Seq::empty()
    } else {
        spec_section_partial(sec, i - 1) + spec_dec(sec[i - 1] as nat) + seq!['.']
    }
}

/// For a non-empty section number, the partial rendering of all parts is
/// the full rendering.
proof fn lemma_section_partial_full(sec: Seq<u32>, i: int)
    requires
        0 < i <= sec.len(),
    ensures
        spec_section_partial(sec, i) == spec_section_string(sec.subrange(0, i)),
    decreases i,
{
    if i == 1 {
        assert(sec.subrange(0, 1).len() == 1);
        assert(sec.subrange(0, 1)[0] == sec[0]);
        assert(spec_section_partial(sec, 0) == Seq::<char>::empty());
        assert(spec_section_partial(sec, 1) =~= spec_dec(sec[0] as nat) + seq!['.']);
    } else {
        lemma_section_partial_full(sec, i - 1);
        assert(sec.subrange(0, i).drop_last() =~= sec.subrange(0, i - 1));
        assert(sec.subrange(0, i).last() == sec[i - 1]);
        assert(sec.subrange(0, i).len() > 1);
    }
}

} // verus!
