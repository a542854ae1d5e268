//! Containment of client-supplied relative paths under the media root.
//!
//! Paths are `/`-separated text. A relative path is accepted when it is not
//! absolute, never climbs with `..`, and has no control characters.
//! `contained_path` decides this from the text alone, naming the root joined
//! with the normal components. `start_containment` and `Containment::step` make
//! the same check against the filesystem: the root is resolved, each component
//! that exists is resolved and must stay under the resolved root, and the
//! finished path is answered in its resolved form. The caller resolves each path
//! the check asks about and reports what the filesystem said.

use vstd::prelude::*;

use crate::text::{chars_of, has_control, is_control, owned, push_char, string_of};

verus! {

#[derive(Debug, Clone, PartialEq, Eq)]
pub enum PathSecurityError {
    AbsolutePath,
    Traversal,
    ControlCharacter(String),
    OutsideRoot(String),
    UnsupportedComponent,
    /// The filesystem refused to resolve the path; the text is its message.
    Io(String),
}

/// A refusal with its text as a character sequence.
pub enum PathRefusal {
    AbsolutePath,
    Traversal,
    ControlCharacter(Seq<char>),
    OutsideRoot(Seq<char>),
    UnsupportedComponent,
    Io(Seq<char>),
}

impl View for PathSecurityError {
    type V = PathRefusal;

    open spec fn view(&self) -> PathRefusal {
        match self {
            PathSecurityError::AbsolutePath => PathRefusal::AbsolutePath,
            PathSecurityError::Traversal => PathRefusal::Traversal,
            PathSecurityError::ControlCharacter(s) => PathRefusal::ControlCharacter(s@),
            PathSecurityError::OutsideRoot(s) => PathRefusal::OutsideRoot(s@),
            PathSecurityError::UnsupportedComponent => PathRefusal::UnsupportedComponent,
            PathSecurityError::Io(s) => PathRefusal::Io(s@),
        }
    }
}

/// A component worth keeping: `Path::components` drops empty pieces and `.`.
pub open spec fn kept(piece: Seq<char>) -> bool {
    piece.len() > 0 && piece != seq!['.']
}

pub open spec fn keep_piece(done: Seq<Seq<char>>, piece: Seq<char>) -> Seq<Seq<char>> {
    if kept(piece) {
        done.push(piece)
    } else {
        done
    }
}

/// The components finished so far and the piece being read, after reading `s`.
pub open spec fn scan_parts(s: Seq<char>) -> (Seq<Seq<char>>, Seq<char>)
    decreases s.len(),
{
    if s.len() == 0 {
        (seq![], seq![])
    } else {
        let (done, piece) = scan_parts(s.drop_last());
        if s.last() == '/' {
            (keep_piece(done, piece), seq![])
        } else {
            (done, piece.push(s.last()))
        }
    }
}

/// The components of a `/`-separated path, as `Path::components` yields the
/// normal and `..` ones.
pub open spec fn path_components(s: Seq<char>) -> Seq<Seq<char>> {
    keep_piece(scan_parts(s).0, scan_parts(s).1)
}

pub open spec fn is_absolute(s: Seq<char>) -> bool {
    s.len() > 0 && s[0] == '/'
}

pub open spec fn has_control_char(s: Seq<char>) -> bool {
    exists|i: int| 0 <= i < s.len() && #[trigger] is_control(s[i])
}

/// The first refusal among the components, checked in order.
pub open spec fn component_error(cs: Seq<Seq<char>>) -> Option<PathRefusal>
    decreases cs.len(),
{
    if cs.len() == 0 {
        None
    } else if cs[0] == seq!['.', '.'] {
        Some(PathRefusal::Traversal)
    } else if has_control_char(cs[0]) {
        Some(PathRefusal::ControlCharacter(cs[0]))
    } else {
        component_error(cs.drop_first())
    }
}

/// `PathBuf::push` of a relative component: a separator goes between them unless
/// the base is empty or already ends with one.
pub open spec fn path_join(base: Seq<char>, part: Seq<char>) -> Seq<char> {
    if base.len() == 0 || base.last() == '/' {
        base + part
    } else {
        base.push('/') + part
    }
}

/// The root with each component pushed in turn.
pub open spec fn join_all(base: Seq<char>, cs: Seq<Seq<char>>) -> Seq<char>
    decreases cs.len(),
{
    if cs.len() == 0 {
        base
    } else {
        path_join(join_all(base, cs.drop_last()), cs.last())
    }
}

/// What `contained_path` answers, before the filesystem is consulted.
pub open spec fn containment(root: Seq<char>, relative: Seq<char>) -> Result<
    Seq<char>,
    PathRefusal,
> {
    if is_absolute(relative) {
        Err(PathRefusal::AbsolutePath)
    } else {
        match component_error(path_components(relative)) {
            Some(e) => Err(e),
            None => Ok(join_all(root, path_components(relative))),
        }
    }
}

/// The components of a path, in order.
pub fn components_of(path: &[char]) -> (r: Vec<Vec<char>>)
    ensures
        r@.len() == path_components(path@).len(),
        forall|i: int| 0 <= i < r@.len() ==> #[trigger] r@[i]@ == path_components(path@)[i],
{
    let mut done: Vec<Vec<char>> = Vec::new();
    let mut piece: Vec<char> = Vec::new();
    let mut i: usize = 0;
    while i < path.len()
        invariant
            i <= path@.len(),
            done@.len() == scan_parts(path@.subrange(0, i as int)).0.len(),
            forall|k: int|
                0 <= k < done@.len() ==> #[trigger] done@[k]@ == scan_parts(
                    path@.subrange(0, i as int),
                ).0[k],
            piece@ == scan_parts(path@.subrange(0, i as int)).1,
        decreases path@.len() - i,
    {
        let ghost before = path@.subrange(0, i as int);
        assert(path@.subrange(0, i + 1).drop_last() =~= before);
        let c = path[i];
        if c == '/' {
            if piece.len() > 0 && !(piece.len() == 1 && piece[0] == '.') {
                assert(kept(piece@)) by {
                    if piece@ == seq!['.'] {
                        assert(piece@.len() == 1 && piece@[0] == '.');
                    }
                };
                done.push(piece);
            } else {
                assert(!kept(piece@)) by {
                    if piece@.len() == 1 && piece@[0] == '.' {
                        assert(piece@ =~= seq!['.']);
                    }
                };
            }
            piece = Vec::new();
            assert(piece@ =~= seq![]);
        } else {
            piece.push(c);
        }
        i = i + 1;
    }
    assert(path@.subrange(0, path@.len() as int) =~= path@);
    if piece.len() > 0 && !(piece.len() == 1 && piece[0] == '.') {
        assert(kept(piece@)) by {
            if piece@ == seq!['.'] {
                assert(piece@.len() == 1 && piece@[0] == '.');
            }
        };
        done.push(piece);
    } else {
        assert(!kept(piece@)) by {
            if piece@.len() == 1 && piece@[0] == '.' {
                assert(piece@ =~= seq!['.']);
            }
        };
    }
    done
}

/// `PathBuf::push` of a relative component, in place.
pub fn push_component(base: &mut Vec<char>, part: &[char])
    ensures
        final(base)@ == path_join(old(base)@, part@),
{
    if base.len() > 0 && base[base.len() - 1] != '/' {
        base.push('/');
    }
    let mut i: usize = 0;
    let ghost start = base@;
    while i < part.len()
        invariant
            i <= part@.len(),
            base@ == start + part@.subrange(0, i as int),
        decreases part@.len() - i,
    {
        base.push(part[i]);
        i = i + 1;
        assert(base@ =~= start + part@.subrange(0, i as int));
    }
    assert(part@.subrange(0, part@.len() as int) =~= part@);
}

/// Joins a relative path under the root after refusing absolute paths, `..`
/// components and control characters, in the order the components come.
pub fn contained_path(root: &str, relative: &str) -> (r: Result<String, PathSecurityError>)
    ensures
        match (r, containment(root@, relative@)) {
            (Ok(p), Ok(q)) => p@ == q,
            (Err(e), Err(f)) => e@ == f,
            _ => false,
        },
{
    let rel = chars_of(relative);
    if rel.len() > 0 && rel[0] == '/' {
        return Err(PathSecurityError::AbsolutePath);
    }
    let cs = components_of(rel.as_slice());
    let ghost all = path_components(rel@);
    let mut candidate = chars_of(root);
    let mut i: usize = 0;
    assert(all.subrange(0, all.len() as int) =~= all);
    assert(all.subrange(0, 0) =~= Seq::<Seq<char>>::empty());
    while i < cs.len()
        invariant
            rel@ == relative@,
            !is_absolute(relative@),
            all == path_components(relative@),
            i <= cs@.len(),
            cs@.len() == all.len(),
            forall|k: int| 0 <= k < cs@.len() ==> #[trigger] cs@[k]@ == all[k],
            component_error(all) == component_error(all.subrange(i as int, all.len() as int)),
            candidate@ == join_all(root@, all.subrange(0, i as int)),
        decreases cs@.len() - i,
    {
        let part = &cs[i];
        let ghost rest = all.subrange(i as int, all.len() as int);
        assert(rest[0] == part@);
        assert(rest.drop_first() =~= all.subrange(i + 1, all.len() as int));
        if part.len() == 2 && part[0] == '.' && part[1] == '.' {
            assert(part@ =~= seq!['.', '.']);
            return Err(PathSecurityError::Traversal);
        }
        assert(part@ != seq!['.', '.']) by {
            if part@ == seq!['.', '.'] {
                assert(part@.len() == 2 && part@[0] == '.' && part@[1] == '.');
            }
        };
        if has_control(part.as_slice()) {
            return Err(PathSecurityError::ControlCharacter(string_of(part.as_slice())));
        }
        push_component(&mut candidate, part.as_slice());
        assert(all.subrange(0, i + 1).drop_last() =~= all.subrange(0, i as int));
        i = i + 1;
    }
    assert(all.subrange(i as int, all.len() as int).len() == 0);
    assert(all.subrange(0, i as int) =~= all);
    Ok(string_of(candidate.as_slice()))
}

/// Whether `path` is `root` or lies under it, comparing whole components as
/// `Path::starts_with` does.
pub open spec fn within(root: Seq<char>, path: Seq<char>) -> bool {
    let rc = path_components(root);
    let pc = path_components(path);
    is_absolute(root) == is_absolute(path) && rc.len() <= pc.len() && pc.subrange(
        0,
        rc.len() as int,
    ) == rc
}

/// `Path::starts_with` on two `/`-separated paths.
pub fn path_within(root: &str, path: &str) -> (b: bool)
    ensures
        b == within(root@, path@),
{
    let rv = chars_of(root);
    let pv = chars_of(path);
    let rc = components_of(rv.as_slice());
    let pc = components_of(pv.as_slice());
    let ra = rv.len() > 0 && rv[0] == '/';
    let pa = pv.len() > 0 && pv[0] == '/';
    if ra != pa || rc.len() > pc.len() {
        return false;
    }
    let ghost rs = path_components(root@);
    let ghost ps = path_components(path@);
    let mut i: usize = 0;
    while i < rc.len()
        invariant
            ra == is_absolute(root@),
            pa == is_absolute(path@),
            ra == pa,
            rs == path_components(root@),
            ps == path_components(path@),
            i <= rc@.len() <= pc@.len(),
            rc@.len() == rs.len(),
            pc@.len() == ps.len(),
            forall|k: int| 0 <= k < rc@.len() ==> #[trigger] rc@[k]@ == rs[k],
            forall|k: int| 0 <= k < pc@.len() ==> #[trigger] pc@[k]@ == ps[k],
            forall|k: int| 0 <= k < i ==> ps[k] == rs[k],
        decreases rc@.len() - i,
    {
        if !crate::text::chars_eq(rc[i].as_slice(), pc[i].as_slice()) {
            assert(rc@[i as int]@ == rs[i as int]);
            assert(pc@[i as int]@ == ps[i as int]);
            assert(ps.subrange(0, rs.len() as int)[i as int] != rs[i as int]);
            return false;
        }
        i = i + 1;
    }
    assert(ps.subrange(0, rs.len() as int) =~= rs);
    true
}


/// No `/` in a piece of text.
pub open spec fn slash_free(x: Seq<char>) -> bool {
    forall|j: int| 0 <= j < x.len() ==> x[j] != '/'
}

proof fn lemma_scan_pieces(s: Seq<char>)
    ensures
        forall|k: int|
            0 <= k < scan_parts(s).0.len() ==> kept(#[trigger] scan_parts(s).0[k]) && slash_free(
                scan_parts(s).0[k],
            ),
        slash_free(scan_parts(s).1),
    decreases s.len(),
{
    if s.len() > 0 {
        lemma_scan_pieces(s.drop_last());
        let (done, piece) = scan_parts(s.drop_last());
        if s.last() != '/' {
            assert(slash_free(piece.push(s.last()))) by {
                assert forall|j: int| 0 <= j < piece.push(s.last()).len() implies piece.push(s.last())[j] != '/' by {
                    if j < piece.len() {
                        assert(piece.push(s.last())[j] == piece[j]);
                    }
                }
            }
        } else {
            let d2 = keep_piece(done, piece);
            assert forall|k: int| 0 <= k < d2.len() implies kept(#[trigger] d2[k]) && slash_free(d2[k]) by {
                if k < done.len() {
                    assert(d2[k] == done[k]);
                }
            }
        }
    }
}

/// Every component of a path is non-empty, not `.`, and has no `/`.
proof fn lemma_component_shape(s: Seq<char>)
    ensures
        forall|k: int|
            0 <= k < path_components(s).len() ==> kept(#[trigger] path_components(s)[k])
                && slash_free(path_components(s)[k]),
{
    lemma_scan_pieces(s);
    let (done, piece) = scan_parts(s);
    let cs = keep_piece(done, piece);
    assert forall|k: int| 0 <= k < cs.len() implies kept(#[trigger] cs[k]) && slash_free(cs[k]) by {
        if k < done.len() {
            assert(cs[k] == done[k]);
        }
    }
}

proof fn lemma_scan_append(s: Seq<char>, t: Seq<char>)
    requires
        slash_free(t),
    ensures
        scan_parts(s + t) == (scan_parts(s).0, scan_parts(s).1 + t),
    decreases t.len(),
{
    if t.len() == 0 {
        assert(s + t =~= s);
        assert(scan_parts(s).1 + t =~= scan_parts(s).1);
    } else {
        assert((s + t).drop_last() =~= s + t.drop_last());
        assert((s + t).last() == t.last());
        assert(t[t.len() - 1] != '/');
        lemma_scan_append(s, t.drop_last());
        assert((scan_parts(s).1 + t.drop_last()).push(t.last()) =~= scan_parts(s).1 + t);
    }
}

proof fn lemma_components_join(b: Seq<char>, part: Seq<char>)
    requires
        kept(part),
        slash_free(part),
    ensures
        path_components(path_join(b, part)) == path_components(b).push(part),
{
    if b.len() == 0 {
        lemma_scan_append(b, part);
        assert(b + part =~= part);
        assert(scan_parts(b).1 + part =~= part);
        assert(path_components(b) =~= Seq::<Seq<char>>::empty());
    } else if b.last() == '/' {
        assert(b.drop_last().push(b.last()) =~= b);
        lemma_scan_append(b, part);
        assert(scan_parts(b).1 =~= Seq::<char>::empty());
        assert(scan_parts(b).1 + part =~= part);
    } else {
        let b2 = b.push('/');
        assert(b2.drop_last() =~= b);
        lemma_scan_append(b2, part);
        assert(scan_parts(b2).1 =~= Seq::<char>::empty());
        assert(scan_parts(b2).1 + part =~= part);
    }
}

proof fn lemma_join_all_components(b: Seq<char>, cs: Seq<Seq<char>>)
    requires
        forall|k: int| 0 <= k < cs.len() ==> kept(#[trigger] cs[k]) && slash_free(cs[k]),
    ensures
        path_components(join_all(b, cs)) == path_components(b) + cs,
        join_all(b, cs).len() == 0 ==> b.len() == 0,
        is_absolute(join_all(b, cs)) == is_absolute(b),
    decreases cs.len(),
{
    if cs.len() == 0 {
        assert(path_components(b) + cs =~= path_components(b));
    } else {
        let rest = cs.drop_last();
        assert forall|k: int| 0 <= k < rest.len() implies kept(#[trigger] rest[k]) && slash_free(rest[k]) by {
            assert(rest[k] == cs[k]);
        }
        lemma_join_all_components(b, rest);
        let last = cs.last();
        assert(kept(last) && slash_free(last));
        lemma_components_join(join_all(b, rest), last);
        assert((path_components(b) + rest).push(last) =~= path_components(b) + cs);
        let j = join_all(b, rest);
        if j.len() == 0 {
            assert(path_join(j, last) =~= last);
            assert(last[0] != '/');
        } else {
            assert(path_join(j, last)[0] == j[0]);
        }
    }
}

/// A path that `contained_path` accepts lies under the root: its components are
/// the root's followed by those of the relative path, none of which is `..`, and
/// it is absolute exactly when the root is.
pub proof fn lemma_contained_paths_stay_under_root(root: Seq<char>, relative: Seq<char>)
    ensures
        containment(root, relative) matches Ok(p) ==> {
            &&& within(root, p)
            &&& path_components(p) == path_components(root) + path_components(relative)
            &&& forall|k: int|
                0 <= k < path_components(relative).len() ==> #[trigger] path_components(relative)[k]
                    != seq!['.', '.']
        },
{
    if containment(root, relative) is Ok {
        let cs = path_components(relative);
        lemma_component_shape(relative);
        lemma_join_all_components(root, cs);
        lemma_no_parent_components(cs);
        let p = join_all(root, cs);
        let rc = path_components(root);
        assert(path_components(p).subrange(0, rc.len() as int) =~= rc);
    }
}

proof fn lemma_no_parent_components(cs: Seq<Seq<char>>)
    requires
        component_error(cs) is None,
    ensures
        forall|k: int| 0 <= k < cs.len() ==> #[trigger] cs[k] != seq!['.', '.'],
    decreases cs.len(),
{
    if cs.len() > 0 {
        lemma_no_parent_components(cs.drop_first());
        assert forall|k: int| 0 <= k < cs.len() implies #[trigger] cs[k] != seq!['.', '.'] by {
            if k > 0 {
                assert(cs[k] == cs.drop_first()[k - 1]);
            }
        }
    }
}

// ---------------------------------------------------------------------------
// Containment against the filesystem: the root and each existing component are
// resolved as the filesystem resolves them, one question at a time.

/// What the filesystem says when asked to resolve a path: it does not exist, it
/// resolves to a canonical path, or resolving it failed with a message.
#[derive(Debug, Clone, PartialEq, Eq)]
pub enum Resolution {
    Missing,
    Resolved(String),
    Failed(String),
}

pub enum ResolutionView {
    Missing,
    Resolved(Seq<char>),
    Failed(Seq<char>),
}

impl View for Resolution {
    type V = ResolutionView;

    open spec fn view(&self) -> ResolutionView {
        match self {
            Resolution::Missing => ResolutionView::Missing,
            Resolution::Resolved(s) => ResolutionView::Resolved(s@),
            Resolution::Failed(s) => ResolutionView::Failed(s@),
        }
    }
}

/// Where a containment check stands.
#[derive(Debug, Clone, Copy, PartialEq, Eq, Structural)]
pub enum ContainPhase {
    /// Waiting for the root to be resolved.
    Root,
    /// Waiting for the path just extended by a component to be resolved.
    Component,
    /// Waiting for the finished path to be resolved.
    Final,
    /// The answer has been given.
    Finished,
}

/// A containment check in progress: the canonical root (once known), the path
/// built so far, and the components still to add.
#[derive(Debug, Clone)]
pub struct Containment {
    pub phase: ContainPhase,
    pub root: String,
    pub candidate: String,
    pub parts: Vec<String>,
    pub next: usize,
}

pub struct ContainView {
    pub phase: ContainPhase,
    pub root: Seq<char>,
    pub candidate: Seq<char>,
    pub rest: Seq<Seq<char>>,
}

pub open spec fn texts(v: Seq<String>) -> Seq<Seq<char>> {
    v.map_values(|s: String| s@)
}

impl View for Containment {
    type V = ContainView;

    open spec fn view(&self) -> ContainView {
        ContainView {
            phase: self.phase,
            root: self.root@,
            candidate: self.candidate@,
            rest: texts(self.parts@).skip(self.next as int),
        }
    }
}

/// What the check asks next, or its answer.
#[derive(Debug, PartialEq, Eq)]
pub enum ContainStep {
    /// Resolve this path and report the `Resolution`.
    Ask(String),
    Done(Result<String, PathSecurityError>),
}

pub enum StepView {
    Ask(Seq<char>),
    Done(Result<Seq<char>, PathRefusal>),
}

impl View for ContainStep {
    type V = StepView;

    open spec fn view(&self) -> StepView {
        match self {
            ContainStep::Ask(p) => StepView::Ask(p@),
            ContainStep::Done(Ok(p)) => StepView::Done(Ok(p@)),
            ContainStep::Done(Err(e)) => StepView::Done(Err(e@)),
        }
    }
}

pub open spec fn finish(root: Seq<char>, answer: Result<Seq<char>, PathRefusal>) -> (ContainView, StepView) {
    (
        ContainView { phase: ContainPhase::Finished, root, candidate: seq![], rest: seq![] },
        StepView::Done(answer),
    )
}

/// The next component is checked and added, or, when none is left, the finished
/// path is asked about.
pub open spec fn advance(root: Seq<char>, candidate: Seq<char>, rest: Seq<Seq<char>>) -> (ContainView, StepView) {
    if rest.len() == 0 {
        (ContainView { phase: ContainPhase::Final, root, candidate, rest }, StepView::Ask(candidate))
    } else if rest[0] == seq!['.', '.'] {
        finish(root, Err(PathRefusal::Traversal))
    } else if has_control_char(rest[0]) {
        finish(root, Err(PathRefusal::ControlCharacter(rest[0])))
    } else {
        let c = path_join(candidate, rest[0]);
        (
            ContainView { phase: ContainPhase::Component, root, candidate: c, rest: rest.drop_first() },
            StepView::Ask(c),
        )
    }
}

/// The start of a check: an absolute relative path is refused at once;
/// otherwise the root is asked about.
pub open spec fn contain_start(root: Seq<char>, relative: Seq<char>) -> (ContainView, StepView) {
    if is_absolute(relative) {
        finish(root, Err(PathRefusal::AbsolutePath))
    } else {
        (
            ContainView {
                phase: ContainPhase::Root,
                root,
                candidate: root,
                rest: path_components(relative),
            },
            StepView::Ask(root),
        )
    }
}

/// One step of a check. The root must resolve; its canonical form is the root
/// from then on. An existing component must resolve under the root, and the
/// path continues from where it resolves. The finished path is answered in its
/// resolved form when it resolves, else as built; either must lie under the root.
pub open spec fn contain_next(s: ContainView, ev: ResolutionView) -> (ContainView, StepView) {
    match s.phase {
        ContainPhase::Root => match ev {
            ResolutionView::Resolved(c) => advance(c, c, s.rest),
            ResolutionView::Failed(m) => finish(s.root, Err(PathRefusal::Io(m))),
            ResolutionView::Missing => finish(s.root, Err(PathRefusal::Io(seq![]))),
        },
        ContainPhase::Component => match ev {
            ResolutionView::Missing => advance(s.root, s.candidate, s.rest),
            ResolutionView::Resolved(c) => if within(s.root, c) {
                advance(s.root, c, s.rest)
            } else {
                finish(s.root, Err(PathRefusal::OutsideRoot(c)))
            },
            ResolutionView::Failed(m) => finish(s.root, Err(PathRefusal::Io(m))),
        },
        _ => match ev {
            ResolutionView::Resolved(c) => if within(s.root, c) {
                finish(s.root, Ok(c))
            } else {
                finish(s.root, Err(PathRefusal::OutsideRoot(c)))
            },
            _ => if within(s.root, s.candidate) {
                finish(s.root, Ok(s.candidate))
            } else {
                finish(s.root, Err(PathRefusal::OutsideRoot(s.candidate)))
            },
        },
    }
}

/// Whatever the filesystem answers, a check that accepts a path accepts one
/// under the canonical root, which no step after the first changes.
pub proof fn lemma_resolved_paths_stay_under_root(s: ContainView, ev: ResolutionView)
    requires
        s.phase != ContainPhase::Finished,
    ensures
        contain_next(s, ev).1 matches StepView::Done(Ok(p)) ==> within(contain_next(s, ev).0.root, p),
        s.phase != ContainPhase::Root ==> contain_next(s, ev).0.root == s.root,
{
}

fn texts_of(parts: Vec<Vec<char>>) -> (r: Vec<String>)
    ensures
        texts(r@) == parts@.map_values(|v: Vec<char>| v@),
{
    let mut out: Vec<String> = Vec::new();
    let mut i: usize = 0;
    while i < parts.len()
        invariant
            i <= parts@.len(),
            out@.len() == i,
            forall|k: int| 0 <= k < i ==> #[trigger] out@[k]@ == parts@[k]@,
        decreases parts@.len() - i,
    {
        let t = string_of(parts[i].as_slice());
        out.push(t);
        i = i + 1;
    }
    assert(texts(out@) =~= parts@.map_values(|v: Vec<char>| v@));
    out
}

fn finished(root: String, answer: Result<String, PathSecurityError>) -> (r: (Containment, ContainStep))
    ensures
        (r.0@, r.1@) == finish(root@, match answer {
            Ok(p) => Ok(p@),
            Err(e) => Err(e@),
        }),
        r.0.next <= r.0.parts@.len(),
{
    let c = Containment { phase: ContainPhase::Finished, root, candidate: String::new(), parts: Vec::new(), next: 0 };
    proof {
        assert(c@.rest =~= Seq::<Seq<char>>::empty());
    }
    (c, ContainStep::Done(answer))
}

fn advanced(root: String, candidate: String, parts: Vec<String>, next: usize) -> (r: (Containment, ContainStep))
    requires
        next <= parts@.len(),
    ensures
        (r.0@, r.1@) == advance(root@, candidate@, texts(parts@).skip(next as int)),
        r.0.next <= r.0.parts@.len(),
{
    let ghost rest = texts(parts@).skip(next as int);
    if next == parts.len() {
        let c = candidate.clone();
        return (Containment { phase: ContainPhase::Final, root, candidate, parts, next }, ContainStep::Ask(c));
    }
    assert(rest[0] == parts@[next as int]@);
    let p = chars_of(parts[next].as_str());
    if p.len() == 2 && p[0] == '.' && p[1] == '.' {
        assert(p@ =~= seq!['.', '.']);
        return finished(root, Err(PathSecurityError::Traversal));
    }
    assert(p@ != seq!['.', '.']) by {
        if p@ == seq!['.', '.'] {
            assert(p@.len() == 2 && p@[0] == '.' && p@[1] == '.');
        }
    };
    if has_control(p.as_slice()) {
        return finished(root, Err(PathSecurityError::ControlCharacter(parts[next].clone())));
    }
    let mut c = chars_of(candidate.as_str());
    push_component(&mut c, p.as_slice());
    let text = string_of(c.as_slice());
    let asked = text.clone();
    proof {
        assert(rest.drop_first() =~= texts(parts@).skip(next + 1));
    }
    (Containment { phase: ContainPhase::Component, root, candidate: text, parts, next: next + 1 }, ContainStep::Ask(asked))
}

/// Starts checking that `relative` names a path under `root`.
pub fn start_containment(root: &str, relative: &str) -> (r: (Containment, ContainStep))
    ensures
        (r.0@, r.1@) == contain_start(root@, relative@),
        r.0.next <= r.0.parts@.len(),
{
    let rel = chars_of(relative);
    if rel.len() > 0 && rel[0] == '/' {
        return finished(owned(root), Err(PathSecurityError::AbsolutePath));
    }
    let cs = components_of(rel.as_slice());
    proof {
        assert(cs@.map_values(|v: Vec<char>| v@) =~= path_components(relative@));
    }
    let parts = texts_of(cs);
    proof {
        assert(texts(parts@).skip(0) =~= texts(parts@));
    }
    let c = Containment { phase: ContainPhase::Root, root: owned(root), candidate: owned(root), parts, next: 0 };
    (c, ContainStep::Ask(owned(root)))
}

impl Containment {
    /// Takes the filesystem's answer to the last question.
    pub fn step(self, event: Resolution) -> (r: (Containment, ContainStep))
        requires
            self.phase != ContainPhase::Finished,
            self.next <= self.parts@.len(),
        ensures
            (r.0@, r.1@) == contain_next(self@, event@),
            r.0.next <= r.0.parts@.len(),
    {
        match self.phase {
            ContainPhase::Root => match event {
                Resolution::Resolved(c) => {
                    let c2 = c.clone();
                    advanced(c, c2, self.parts, self.next)
                },
                Resolution::Failed(m) => finished(self.root, Err(PathSecurityError::Io(m))),
                Resolution::Missing => finished(self.root, Err(PathSecurityError::Io(String::new()))),
            },
            ContainPhase::Component => match event {
                Resolution::Missing => advanced(self.root, self.candidate, self.parts, self.next),
                Resolution::Resolved(c) => {
                    if path_within(self.root.as_str(), c.as_str()) {
                        advanced(self.root, c, self.parts, self.next)
                    } else {
                        finished(self.root, Err(PathSecurityError::OutsideRoot(c)))
                    }
                },
                Resolution::Failed(m) => finished(self.root, Err(PathSecurityError::Io(m))),
            },
            _ => match event {
                Resolution::Resolved(c) => {
                    if path_within(self.root.as_str(), c.as_str()) {
                        finished(self.root, Ok(c))
                    } else {
                        finished(self.root, Err(PathSecurityError::OutsideRoot(c)))
                    }
                },
                _ => {
                    if path_within(self.root.as_str(), self.candidate.as_str()) {
                        finished(self.root, Ok(self.candidate))
                    } else {
                        finished(self.root, Err(PathSecurityError::OutsideRoot(self.candidate)))
                    }
                },
            },
        }
    }
}

} // verus!
