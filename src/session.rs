//! The merge session: one file's segments and hunks, per-hunk resolution with
//! an optional deduplication cache, and the Parsed -> Applied -> Validated ->
//! Completed lifecycle that produces the final text.
use vstd::prelude::*;

use crate::conflict::{
    fresh_hunks, is_any_marker, parse, parse_text, pieces_of, segments_in_range, split_lines,
    texts_of, HunkText, ParseError, Segment,
};
use crate::hunk::{
    apply_strategy, copy_lines, state_view, strategy_lines, strs, text_of, Hunk, HunkState, Origin,
    Resolution, StrategyKind,
};
use crate::text::{chars_of, push_all, string_of};

verus! {

#[derive(Debug, Clone, Copy, PartialEq, Eq, Structural)]
pub enum LifecycleState {
    Parsed,
    Applied,
    Validated,
    Completed,
}

/// A lifecycle method was called in the wrong state.
#[derive(Debug, Clone, Copy, PartialEq, Eq, Structural)]
pub struct LifecycleError {
    pub expected: LifecycleState,
    pub actual: LifecycleState,
}

/// Why a hunk could not be resolved or unresolved.
#[derive(Debug, Clone, Copy, PartialEq, Eq, Structural)]
pub enum ResolveError {
    InvalidHunkIndex { index: usize },
    AlreadyApplied,
    UnsupportedStrategy { hunk_index: usize },
}

/// The assembled text broke a structural rule.
#[derive(Debug, Clone, Copy, PartialEq, Eq, Structural)]
pub enum StructuralError {
    /// A marker line is left in the assembled text.
    ResidualMarker,
}

/// Why a lifecycle step failed.
#[derive(Debug, Clone, Copy, PartialEq, Eq, Structural)]
pub enum SessionError {
    /// `apply` found this hunk unresolved.
    IncompleteResolution { hunk_index: usize },
    Validation(StructuralError),
    Lifecycle(LifecycleError),
}

/// What a resolution is made from.
#[derive(Debug, Clone)]
pub enum ResolutionSource {
    Strategy(StrategyKind),
    /// These lines, without their `\n`.
    Manual(Vec<String>),
}

/// Counts of a completed session.
#[derive(Debug, Clone, Copy, PartialEq, Eq, Structural)]
pub struct Summary {
    pub total_hunks: usize,
    pub resolved_hunks: usize,
    pub strategy: usize,
    pub manual: usize,
    pub dedupe: usize,
}

#[derive(Debug, Clone)]
pub struct CompletionResult {
    pub content: String,
    pub summary: Summary,
}

/// A remembered resolution: the hunk it was made for, and its lines.
#[derive(Debug)]
pub struct CacheEntry {
    pub source: usize,
    pub content: Vec<String>,
}

/// One file's merge session.
#[derive(Debug)]
pub struct MergeSession {
    path: String,
    segments: Vec<Segment>,
    hunks: Vec<Hunk>,
    state: LifecycleState,
    dedupe: bool,
    cache: Vec<CacheEntry>,
}

/// The content-derived key of a hunk: its three sides.
pub open spec fn fingerprint(t: HunkText) -> (Seq<Seq<char>>, Seq<Seq<char>>, Option<Seq<Seq<char>>>) {
    (t.ours, t.theirs, t.base)
}

pub open spec fn states_of(hs: Seq<Hunk>) -> Seq<Option<(Seq<Seq<char>>, Origin)>> {
    hs.map_values(|h: Hunk| state_view(h.state))
}

pub open spec fn cache_of(c: Seq<CacheEntry>) -> Seq<(usize, Seq<Seq<char>>)> {
    c.map_values(|e: CacheEntry| (e.source, strs(e.content@)))
}

/// The first cache entry whose source hunk has fingerprint `fp`.
pub open spec fn first_hit(
    c: Seq<(usize, Seq<Seq<char>>)>,
    ts: Seq<HunkText>,
    fp: (Seq<Seq<char>>, Seq<Seq<char>>, Option<Seq<Seq<char>>>),
) -> Option<(usize, Seq<Seq<char>>)>
    decreases c.len(),
{
    if c.len() == 0 {
        None
    } else if c[0].0 < ts.len() && fingerprint(ts[c[0].0 as int]) == fp {
        Some(c[0])
    } else {
        first_hit(c.drop_first(), ts, fp)
    }
}

/// The lines and origin that `src` gives for a hunk, if it applies.
pub open spec fn source_lines(src: ResolutionSource, t: HunkText) -> Option<(Seq<Seq<char>>, Origin)> {
    match src {
        ResolutionSource::Strategy(k) => match strategy_lines(t, k) {
            Some(ls) => Some((ls, Origin::Strategy(k))),
            None => None,
        },
        ResolutionSource::Manual(v) => Some((strs(v@), Origin::Manual)),
    }
}

/// The states after hunk `i` took `res`: with deduplication, every other
/// unresolved hunk of the same fingerprint takes its lines too, with origin
/// `Dedupe(src)`.
pub open spec fn after_resolve(
    old: Seq<Option<(Seq<Seq<char>>, Origin)>>,
    ts: Seq<HunkText>,
    i: int,
    res: (Seq<Seq<char>>, Origin),
    src: usize,
    dedupe: bool,
) -> Seq<Option<(Seq<Seq<char>>, Origin)>> {
    Seq::new(
        old.len(),
        |j: int|
            if j == i {
                Some(res)
            } else if dedupe && old[j] is None && fingerprint(ts[j]) == fingerprint(ts[i]) {
                Some((res.0, Origin::Dedupe(src)))
            } else {
                old[j]
            },
    )
}

/// The text that lines make, each followed by `\n`.
pub open spec fn render(ls: Seq<Seq<char>>) -> Seq<char>
    decreases ls.len(),
{
    if ls.len() == 0 {
        Seq::empty()
    } else {
        render(ls.drop_last()) + ls.last() + seq!['\n']
    }
}

/// The text of the segments, with each conflict replaced by the lines of its
/// hunk's resolution.
pub open spec fn resolved_text(segs: Seq<Segment>, hs: Seq<Hunk>) -> Seq<char>
    decreases segs.len(),
{
    if segs.len() == 0 {
        Seq::empty()
    } else {
        resolved_text(segs.drop_last(), hs) + slot_text(segs.last(), hs)
    }
}

/// The text that fills one segment's slot: its literal text, or the lines of
/// its hunk's resolution.
pub open spec fn slot_text(seg: Segment, hs: Seq<Hunk>) -> Seq<char> {
    match seg {
        Segment::Literal(t) => t@,
        Segment::Conflict(i) => if i < hs.len() {
            match state_view(hs[i as int].state) {
                Some(r) => render(r.0),
                None => Seq::empty(),
            }
        } else {
            Seq::empty()
        },
    }
}

/// `seg` is literal text equal to `t`.
pub open spec fn holds_text(seg: Segment, t: Seq<char>) -> bool {
    match seg {
        Segment::Literal(x) => x@ == t,
        Segment::Conflict(_) => false,
    }
}

pub open spec fn all_literal(segs: Seq<Segment>) -> bool {
    forall|k: int| 0 <= k < segs.len() ==> (#[trigger] segs[k]) is Literal
}

pub open spec fn all_resolved(hs: Seq<Hunk>) -> bool {
    forall|j: int| 0 <= j < hs.len() ==> (#[trigger] hs[j]).state is Resolved
}

/// The lines of `s` split at `\n`, the last one kept where no `\n` ends it.
pub open spec fn all_lines(s: Seq<char>) -> Seq<Seq<char>> {
    let (ls, cur) = split_lines(s);
    if cur.len() > 0 {
        ls.push(cur)
    } else {
        ls
    }
}

pub open spec fn has_marker(s: Seq<char>) -> bool {
    exists|k: int| 0 <= k < all_lines(s).len() && is_any_marker(#[trigger] all_lines(s)[k])
}

pub open spec fn origin_count(states: Seq<Option<(Seq<Seq<char>>, Origin)>>, tag: int) -> nat
    decreases states.len(),
{
    if states.len() == 0 {
        0
    } else {
        origin_count(states.drop_last(), tag) + match states.last() {
            Some((_, Origin::Strategy(_))) => if tag == 0 { 1nat } else { 0nat },
            Some((_, Origin::Manual)) => if tag == 1 { 1nat } else { 0nat },
            Some((_, Origin::Dedupe(_))) => if tag == 2 { 1nat } else { 0nat },
            None => 0nat,
        }
    }
}

/// Every cache entry names a hunk and holds the lines `kind` picks for it.
pub open spec fn cache_fp_ok(c: Seq<(usize, Seq<Seq<char>>)>, ts: Seq<HunkText>, kind: StrategyKind) -> bool {
    forall|k: int| 0 <= k < c.len() ==> (#[trigger] c[k]).0 < ts.len() && strategy_lines(ts[c[k].0 as int], kind) == Some(c[k].1)
}

/// A hit is an entry of the cache whose hunk has the fingerprint sought.
pub proof fn lemma_first_hit(
    c: Seq<(usize, Seq<Seq<char>>)>,
    ts: Seq<HunkText>,
    fp: (Seq<Seq<char>>, Seq<Seq<char>>, Option<Seq<Seq<char>>>),
)
    ensures
        first_hit(c, ts, fp) is Some ==> exists|k: int| 0 <= k < c.len() && #[trigger] c[k] == first_hit(c, ts, fp)->0
            && c[k].0 < ts.len() && fingerprint(ts[c[k].0 as int]) == fp,
    decreases c.len(),
{
    if c.len() > 0 {
        lemma_first_hit(c.drop_first(), ts, fp);
        if !(c[0].0 < ts.len() && fingerprint(ts[c[0].0 as int]) == fp) && first_hit(c, ts, fp) is Some {
            let k = choose|k: int| 0 <= k < c.drop_first().len() && #[trigger] c.drop_first()[k] == first_hit(c.drop_first(), ts, fp)->0
                && c.drop_first()[k].0 < ts.len() && fingerprint(ts[c.drop_first()[k].0 as int]) == fp;
            assert(c[k + 1] == c.drop_first()[k]);
        }
    }
}

/// Each hunk knows its position.
pub open spec fn indexed(hs: Seq<Hunk>) -> bool {
    forall|j: int| 0 <= j < hs.len() ==> (#[trigger] hs[j]).index == j
}

fn lines_eq(a: &Vec<String>, b: &Vec<String>) -> (r: bool)
    ensures
        r == (strs(a@) == strs(b@)),
{
    if a.len() != b.len() {
        assert(strs(a@).len() != strs(b@).len());
        return false;
    }
    let mut k: usize = 0;
    while k < a.len()
        invariant
            a.len() == b.len(),
            k <= a.len(),
            forall|m: int| 0 <= m < k ==> a@[m]@ == b@[m]@,
        decreases a.len() - k,
    {
        if a[k] != b[k] {
            assert(strs(a@)[k as int] != strs(b@)[k as int]);
            return false;
        }
        k = k + 1;
    }
    assert(strs(a@) =~= strs(b@));
    true
}

fn same_fingerprint(a: &Hunk, b: &Hunk) -> (r: bool)
    ensures
        r == (fingerprint(text_of(*a)) == fingerprint(text_of(*b))),
{
    if !lines_eq(&a.ours_lines, &b.ours_lines) || !lines_eq(&a.theirs_lines, &b.theirs_lines) {
        return false;
    }
    match (&a.base_lines, &b.base_lines) {
        (Some(x), Some(y)) => lines_eq(x, y),
        (None, None) => true,
        _ => false,
    }
}

/// Gives hunk `j` the state `st`, leaving everything else as it was.
fn set_state(hunks: &mut Vec<Hunk>, j: usize, st: HunkState)
    requires
        j < old(hunks).len(),
    ensures
        final(hunks).len() == old(hunks).len(),
        texts_of(final(hunks)@) == texts_of(old(hunks)@),
        forall|m: int| 0 <= m < final(hunks).len() ==> (#[trigger] final(hunks)@[m]).index == old(hunks)@[m].index,
        states_of(final(hunks)@) == states_of(old(hunks)@).update(j as int, state_view(st)),
{
    let mut h = hunks.remove(j);
    h.state = st;
    hunks.insert(j, h);
    assert(texts_of(hunks@) =~= texts_of(old(hunks)@));
    assert(states_of(hunks@) =~= states_of(old(hunks)@).update(j as int, state_view(st)));
}

/// The lines, each followed by `\n`.
fn render_content(v: &Vec<String>) -> (r: Vec<char>)
    ensures
        r@ == render(strs(v@)),
{
    let mut out: Vec<char> = Vec::new();
    let mut k: usize = 0;
    while k < v.len()
        invariant
            k <= v.len(),
            out@ == render(strs(v@.subrange(0, k as int))),
        decreases v.len() - k,
    {
        let cs = chars_of(v[k].as_str());
        push_all(&mut out, &cs);
        out.push('\n');
        assert(strs(v@.subrange(0, k + 1)).drop_last() =~= strs(v@.subrange(0, k as int)));
        k = k + 1;
    }
    assert(v@.subrange(0, v.len() as int) =~= v@);
    out
}

/// Whether some line of `v` is a marker line.
fn has_marker_line(v: &Vec<char>) -> (r: bool)
    ensures
        r == has_marker(v@),
{
    let n = v.len();
    let mut cur: Vec<char> = Vec::new();
    let mut found = false;
    let mut i: usize = 0;
    assert(v@.subrange(0, 0) =~= Seq::<char>::empty());
    while i < n
        invariant
            n == v.len(),
            i <= n,
            cur@ == split_lines(v@.subrange(0, i as int)).1,
            found == exists|m: int|
                0 <= m < split_lines(v@.subrange(0, i as int)).0.len() && is_any_marker(
                    #[trigger] split_lines(v@.subrange(0, i as int)).0[m],
                ),
        decreases n - i,
    {
        let ghost pre = v@.subrange(0, i as int);
        assert(v@.subrange(0, i + 1).drop_last() =~= pre);
        let ghost ls = split_lines(pre).0;
        if v[i] == '\n' {
            let m = is_line_marker(&cur);
            let ghost nls = ls.push(cur@);
            assert(split_lines(v@.subrange(0, i + 1)).0 == nls);
            if m {
                assert(is_any_marker(nls[ls.len() as int]));
            }
            if found {
                let ghost w = choose|m: int| 0 <= m < ls.len() && is_any_marker(#[trigger] ls[m]);
                assert(nls[w] == ls[w]);
            }
            found = found || m;
            proof {
                if !found {
                    assert forall|q: int| 0 <= q < nls.len() implies !is_any_marker(#[trigger] nls[q]) by {
                        if q < ls.len() {
                            assert(nls[q] == ls[q]);
                        }
                    }
                }
            }
            cur = Vec::new();
        } else {
            cur.push(v[i]);
        }
        i = i + 1;
    }
    assert(v@.subrange(0, n as int) =~= v@);
    let ghost ls = split_lines(v@).0;
    let m = cur.len() > 0 && is_line_marker(&cur);
    let r = found || m;
    proof {
        let all = all_lines(v@);
        if cur@.len() > 0 {
            assert(all == ls.push(cur@));
        } else {
            assert(all == ls);
        }
        assert forall|q: int| 0 <= q < ls.len() implies all[q] == ls[q] by {}
        if found {
            let w = choose|q: int| 0 <= q < ls.len() && is_any_marker(#[trigger] ls[q]);
            assert(is_any_marker(all[w]));
        }
        if m {
            assert(is_any_marker(all[ls.len() as int]));
        }
        if !r {
            assert forall|q: int| 0 <= q < all.len() implies !is_any_marker(#[trigger] all[q]) by {
                if q < ls.len() {
                    assert(all[q] == ls[q]);
                }
            }
        }
    }
    r
}

fn is_line_marker(l: &Vec<char>) -> (r: bool)
    ensures
        r == is_any_marker(l@),
{
    crate::conflict::is_marker_line(l, '<') || crate::conflict::is_marker_line(l, '|')
        || crate::conflict::is_marker_line(l, '=') || crate::conflict::is_marker_line(l, '>')
}

impl MergeSession {
    pub closed spec fn spec_path(&self) -> Seq<char> {
        self.path@
    }

    pub closed spec fn spec_segments(&self) -> Seq<Segment> {
        self.segments@
    }

    pub closed spec fn spec_hunks(&self) -> Seq<Hunk> {
        self.hunks@
    }

    pub closed spec fn spec_state(&self) -> LifecycleState {
        self.state
    }

    pub closed spec fn spec_dedupe(&self) -> bool {
        self.dedupe
    }

    pub closed spec fn spec_cache(&self) -> Seq<(usize, Seq<Seq<char>>)> {
        cache_of(self.cache@)
    }

    /// The session's invariant: hunks know their positions, segments and
    /// cache entries name existing hunks, and once applied every segment is
    /// literal text and every hunk resolved.
    pub closed spec fn wf(&self) -> bool {
        &&& indexed(self.hunks@)
        &&& segments_in_range(self.segments@, self.hunks@.len())
        &&& forall|k: int| 0 <= k < self.cache@.len() ==> (#[trigger] self.cache@[k]).source < self.hunks@.len()
        &&& self.state != LifecycleState::Parsed ==> all_literal(self.segments@) && all_resolved(self.hunks@)
    }

    /// Parses `text` into a new session for the file at `path`, in state
    /// `Parsed`, with every hunk unresolved and deduplication off.
    pub fn from_conflicted(text: &str, path: String) -> (r: Result<MergeSession, ParseError>)
        ensures
            match parse_text(text@) {
                Err(e) => r == Err::<MergeSession, ParseError>(e),
                Ok((ps, ts)) => {
                    &&& r is Ok
                    &&& r->Ok_0.wf()
                    &&& pieces_of(r->Ok_0.spec_segments()) == ps
                    &&& texts_of(r->Ok_0.spec_hunks()) == ts
                    &&& fresh_hunks(r->Ok_0.spec_hunks())
                    &&& segments_in_range(r->Ok_0.spec_segments(), r->Ok_0.spec_hunks().len())
                    &&& r->Ok_0.spec_state() == LifecycleState::Parsed
                    &&& r->Ok_0.spec_path() == path@
                    &&& !r->Ok_0.spec_dedupe()
                    &&& r->Ok_0.spec_cache().len() == 0
                },
            },
    {
        match parse(text) {
            Err(e) => Err(e),
            Ok((segments, hunks)) => {
                let s = MergeSession {
                    path,
                    segments,
                    hunks,
                    state: LifecycleState::Parsed,
                    dedupe: false,
                    cache: Vec::new(),
                };
                assert(cache_of(s.cache@) =~= Seq::<(usize, Seq<Seq<char>>)>::empty());
                Ok(s)
            },
        }
    }

    pub fn path(&self) -> (r: &String)
        ensures
            r@ == self.spec_path(),
    {
        &self.path
    }

    pub fn hunks(&self) -> (r: &Vec<Hunk>)
        ensures
            r@ == self.spec_hunks(),
    {
        &self.hunks
    }

    pub fn segments(&self) -> (r: &Vec<Segment>)
        ensures
            r@ == self.spec_segments(),
    {
        &self.segments
    }

    pub fn state(&self) -> (r: LifecycleState)
        ensures
            r == self.spec_state(),
    {
        self.state
    }

    /// Turns deduplication on or off for the resolutions that follow.
    pub fn set_dedupe(&mut self, on: bool)
        requires
            old(self).wf(),
        ensures
            final(self).wf(),
            final(self).spec_dedupe() == on,
            final(self).spec_segments() == old(self).spec_segments(),
            final(self).spec_hunks() == old(self).spec_hunks(),
            final(self).spec_state() == old(self).spec_state(),
            final(self).spec_cache() == old(self).spec_cache(),
            final(self).spec_path() == old(self).spec_path(),
    {
        self.dedupe = on;
    }

    /// True iff every hunk is resolved (so true when there are none).
    pub fn is_fully_resolved(&self) -> (r: bool)
        ensures
            r == all_resolved(self.spec_hunks()),
    {
        let mut j: usize = 0;
        while j < self.hunks.len()
            invariant
                j <= self.hunks.len(),
                forall|m: int| 0 <= m < j ==> (#[trigger] self.hunks@[m]).state is Resolved,
            decreases self.hunks.len() - j,
        {
            if let HunkState::Unresolved = self.hunks[j].state {
                return false;
            }
            j = j + 1;
        }
        true
    }

    fn find_cached(&self, i: usize) -> (r: Option<(usize, Vec<String>)>)
        requires
            i < self.hunks.len(),
        ensures
            match first_hit(self.spec_cache(), texts_of(self.hunks@), fingerprint(text_of(self.hunks@[i as int]))) {
                None => r is None,
                Some((src, ls)) => r is Some && (r->0).0 == src && strs((r->0).1@) == ls,
            },
            r is Some ==> (r->0).0 < self.hunks@.len(),
    {
        let ghost ts = texts_of(self.hunks@);
        let ghost fp = fingerprint(text_of(self.hunks@[i as int]));
        let ghost c = cache_of(self.cache@);
        let mut k: usize = 0;
        assert(c.subrange(0, c.len() as int) =~= c);
        while k < self.cache.len()
            invariant
                k <= self.cache.len(),
                c == cache_of(self.cache@),
                ts == texts_of(self.hunks@),
                fp == fingerprint(text_of(self.hunks@[i as int])),
                i < self.hunks.len(),
                first_hit(c, ts, fp) == first_hit(c.subrange(k as int, c.len() as int), ts, fp),
            decreases self.cache.len() - k,
        {
            let ghost rest = c.subrange(k as int, c.len() as int);
            assert(rest.drop_first() =~= c.subrange(k + 1, c.len() as int));
            let src = self.cache[k].source;
            if src < self.hunks.len() && same_fingerprint(&self.hunks[src], &self.hunks[i]) {
                assert(ts[src as int] == text_of(self.hunks@[src as int]));
                return Some((src, copy_lines(&self.cache[k].content)));
            }
            k = k + 1;
        }
        assert(c.subrange(c.len() as int, c.len() as int).len() == 0);
        None
    }

    /// Resolves hunk `hunk_index` from `source`. With deduplication on, a
    /// remembered resolution of a content-identical hunk is taken first (origin
    /// `Dedupe` of its hunk); a fresh one is remembered; and every other
    /// unresolved hunk of the same fingerprint takes the same lines, with
    /// origin `Dedupe`. Fails, changing nothing, once the session has left
    /// `Parsed`, on an index out of range, or on `Base` without base text.
    pub fn resolve(&mut self, hunk_index: usize, source: ResolutionSource) -> (r: Result<(), ResolveError>)
        requires
            old(self).wf(),
        ensures
            final(self).wf(),
            final(self).spec_segments() == old(self).spec_segments(),
            texts_of(final(self).spec_hunks()) == texts_of(old(self).spec_hunks()),
            final(self).spec_state() == old(self).spec_state(),
            final(self).spec_dedupe() == old(self).spec_dedupe(),
            final(self).spec_path() == old(self).spec_path(),
            ({
                let ts = texts_of(old(self).spec_hunks());
                let old_states = states_of(old(self).spec_hunks());
                let i = hunk_index as int;
                if old(self).spec_state() != LifecycleState::Parsed {
                    r == Err::<(), ResolveError>(ResolveError::AlreadyApplied) && final(self).spec_hunks() == old(self).spec_hunks()
                } else if hunk_index >= ts.len() {
                    r == Err::<(), ResolveError>(ResolveError::InvalidHunkIndex { index: hunk_index })
                        && final(self).spec_hunks() == old(self).spec_hunks()
                } else {
                    let hit = if old(self).spec_dedupe() {
                        first_hit(old(self).spec_cache(), ts, fingerprint(ts[i]))
                    } else {
                        None
                    };
                    match hit {
                        Some((src, ls)) => {
                            &&& r is Ok
                            &&& states_of(final(self).spec_hunks()) == after_resolve(
                                old_states, ts, i, (ls, Origin::Dedupe(src)), src, true)
                            &&& final(self).spec_cache() == old(self).spec_cache()
                        },
                        None => match source_lines(source, ts[i]) {
                            None => r == Err::<(), ResolveError>(ResolveError::UnsupportedStrategy { hunk_index })
                                && final(self).spec_hunks() == old(self).spec_hunks()
                                && final(self).spec_cache() == old(self).spec_cache(),
                            Some(res) => {
                                &&& r is Ok
                                &&& states_of(final(self).spec_hunks()) == after_resolve(
                                    old_states, ts, i, res, hunk_index, old(self).spec_dedupe())
                                &&& final(self).spec_cache() == if old(self).spec_dedupe() {
                                    old(self).spec_cache().push((hunk_index, res.0))
                                } else {
                                    old(self).spec_cache()
                                }
                            },
                        },
                    }
                }
            }),
    {
        if self.state != LifecycleState::Parsed {
            return Err(ResolveError::AlreadyApplied);
        }
        let n = self.hunks.len();
        if hunk_index >= n {
            return Err(ResolveError::InvalidHunkIndex { index: hunk_index });
        }
        let ghost ts = texts_of(self.hunks@);
        let ghost old_states = states_of(self.hunks@);
        let ghost i = hunk_index as int;
        assert(ts[i] == text_of(self.hunks@[i]));
        let hit = if self.dedupe {
            self.find_cached(hunk_index)
        } else {
            None
        };
        let was_hit = hit.is_some();
        let (content, origin, src) = match hit {
            Some((s, c)) => (c, Origin::Dedupe(s), s),
            None => match source {
                ResolutionSource::Strategy(k) => match apply_strategy(&self.hunks[hunk_index], k) {
                    Ok(res) => (res.content, res.origin, hunk_index),
                    Err(_) => {
                        return Err(ResolveError::UnsupportedStrategy { hunk_index });
                    },
                },
                ResolutionSource::Manual(v) => (v, Origin::Manual, hunk_index),
            },
        };
        let ghost res = (strs(content@), origin);
        if self.dedupe && !was_hit {
            let ghost c0 = cache_of(self.cache@);
            self.cache.push(CacheEntry { source: hunk_index, content: copy_lines(&content) });
            assert(cache_of(self.cache@) =~= c0.push((hunk_index, res.0)));
        }
        let dd = self.dedupe;
        let ghost want = after_resolve(old_states, ts, i, res, src, dd);
        let ghost segs0 = self.segments@;
        let ghost cache0 = self.cache@;
        let ghost path0 = self.path@;
        if dd {
            let mut j: usize = 0;
            while j < n
                invariant
                    n == self.hunks.len(),
                    j <= n,
                    hunk_index < n,
                    i == hunk_index as int,
                    src < n,
                    dd,
                    texts_of(self.hunks@) == ts,
                    indexed(self.hunks@),
                    old_states.len() == n,
                    want == after_resolve(old_states, ts, i, res, src, dd),
                    self.segments@ == segs0,
                    self.cache@ == cache0,
                    self.path@ == path0,
                    self.state == LifecycleState::Parsed,
                    self.dedupe == dd,
                    segments_in_range(segs0, n as nat),
                    forall|k: int| 0 <= k < cache0.len() ==> (#[trigger] cache0[k]).source < n,
                    res.0 == strs(content@),
                    forall|m: int| 0 <= m < n ==> #[trigger] states_of(self.hunks@)[m] == if m < j && m != i {
                        want[m]
                    } else {
                        old_states[m]
                    },
                decreases n - j,
            {
                if j != hunk_index {
                    let unresolved = match self.hunks[j].state {
                        HunkState::Unresolved => true,
                        HunkState::Resolved(_) => false,
                    };
                    assert(states_of(self.hunks@)[j as int] == old_states[j as int]);
                    assert(ts[j as int] == text_of(self.hunks@[j as int]));
                    assert(unresolved == (old_states[j as int] is None));
                    assert(ts[i] == text_of(self.hunks@[i]));
                    let ghost before = states_of(self.hunks@);
                    if unresolved && same_fingerprint(&self.hunks[j], &self.hunks[hunk_index]) {
                        let copy = copy_lines(&content);
                        let st = HunkState::Resolved(Resolution { content: copy, origin: Origin::Dedupe(src) });
                        assert(state_view(st) == Some((res.0, Origin::Dedupe(src))));
                        set_state(&mut self.hunks, j, st);
                        assert(want[j as int] == Some((res.0, Origin::Dedupe(src))));
                    } else {
                        assert(want[j as int] == old_states[j as int]);
                    }
                    assert forall|m: int| 0 <= m < n implies #[trigger] states_of(self.hunks@)[m] == if m < j + 1 && m != i {
                        want[m]
                    } else {
                        old_states[m]
                    } by {
                        if m != j {
                            assert(states_of(self.hunks@)[m] == before[m]);
                        }
                    }
                }
                j = j + 1;
            }
        }
        let ghost pre = states_of(self.hunks@);
        let fin = HunkState::Resolved(Resolution { content, origin });
        assert(state_view(fin) == Some(res));
        set_state(&mut self.hunks, hunk_index, fin);
        assert forall|m: int| 0 <= m < n implies #[trigger] states_of(self.hunks@)[m] == want[m] by {
            if m != i {
                assert(states_of(self.hunks@)[m] == pre[m]);
            }
        }
        assert(states_of(self.hunks@) =~= want);
        assert(self.hunks@.len() == n);
        Ok(())
    }

    /// Reverts hunk `hunk_index` to unresolved; same guards as `resolve`.
    pub fn unresolve(&mut self, hunk_index: usize) -> (r: Result<(), ResolveError>)
        requires
            old(self).wf(),
        ensures
            final(self).wf(),
            final(self).spec_segments() == old(self).spec_segments(),
            texts_of(final(self).spec_hunks()) == texts_of(old(self).spec_hunks()),
            final(self).spec_state() == old(self).spec_state(),
            final(self).spec_dedupe() == old(self).spec_dedupe(),
            final(self).spec_cache() == old(self).spec_cache(),
            final(self).spec_path() == old(self).spec_path(),
            old(self).spec_state() != LifecycleState::Parsed ==> r == Err::<(), ResolveError>(
                ResolveError::AlreadyApplied,
            ) && final(self).spec_hunks() == old(self).spec_hunks(),
            old(self).spec_state() == LifecycleState::Parsed && hunk_index >= old(self).spec_hunks().len()
                ==> r == Err::<(), ResolveError>(ResolveError::InvalidHunkIndex { index: hunk_index })
                && final(self).spec_hunks() == old(self).spec_hunks(),
            old(self).spec_state() == LifecycleState::Parsed && hunk_index < old(self).spec_hunks().len()
                ==> r is Ok && states_of(final(self).spec_hunks()) == states_of(
                old(self).spec_hunks(),
            ).update(hunk_index as int, None),
    {
        if self.state != LifecycleState::Parsed {
            return Err(ResolveError::AlreadyApplied);
        }
        if hunk_index >= self.hunks.len() {
            return Err(ResolveError::InvalidHunkIndex { index: hunk_index });
        }
        set_state(&mut self.hunks, hunk_index, HunkState::Unresolved);
        Ok(())
    }

    /// Replaces every conflict segment by the lines of its hunk's resolution
    /// and moves to `Applied`. Needs state `Parsed` and every hunk resolved;
    /// otherwise fails, naming the first unresolved hunk, and changes nothing.
    pub fn apply(&mut self) -> (r: Result<(), SessionError>)
        requires
            old(self).wf(),
        ensures
            final(self).wf(),
            final(self).spec_hunks() == old(self).spec_hunks(),
            final(self).spec_dedupe() == old(self).spec_dedupe(),
            final(self).spec_cache() == old(self).spec_cache(),
            final(self).spec_path() == old(self).spec_path(),
            old(self).spec_state() != LifecycleState::Parsed ==> r == Err::<(), SessionError>(
                SessionError::Lifecycle(
                    LifecycleError { expected: LifecycleState::Parsed, actual: old(self).spec_state() },
                ),
            ),
            old(self).spec_state() == LifecycleState::Parsed && !all_resolved(old(self).spec_hunks())
                ==> (r matches Err(SessionError::IncompleteResolution { hunk_index })
                && hunk_index < old(self).spec_hunks().len()
                && old(self).spec_hunks()[hunk_index as int].state is Unresolved
                && forall|m: int| 0 <= m < hunk_index ==> (#[trigger] old(self).spec_hunks()[m]).state is Resolved),
            old(self).spec_state() == LifecycleState::Parsed && all_resolved(old(self).spec_hunks()) ==> {
                &&& r is Ok
                &&& final(self).spec_state() == LifecycleState::Applied
                &&& final(self).spec_segments().len() == old(self).spec_segments().len()
                &&& forall|k: int| 0 <= k < old(self).spec_segments().len() ==> holds_text(
                    #[trigger] final(self).spec_segments()[k],
                    slot_text(old(self).spec_segments()[k], old(self).spec_hunks()),
                )
                &&& resolved_text(final(self).spec_segments(), final(self).spec_hunks())
                    == resolved_text(old(self).spec_segments(), old(self).spec_hunks())
            },
            r is Err ==> final(self).spec_segments() == old(self).spec_segments()
                && final(self).spec_state() == old(self).spec_state(),
    {
        if self.state != LifecycleState::Parsed {
            return Err(SessionError::Lifecycle(LifecycleError { expected: LifecycleState::Parsed, actual: self.state }));
        }
        let mut j: usize = 0;
        while j < self.hunks.len()
            invariant
                *self == *old(self),
                self.wf(),
                self.state == LifecycleState::Parsed,
                j <= self.hunks.len(),
                forall|m: int| 0 <= m < j ==> (#[trigger] self.hunks@[m]).state is Resolved,
            decreases self.hunks.len() - j,
        {
            if let HunkState::Unresolved = self.hunks[j].state {
                return Err(SessionError::IncompleteResolution { hunk_index: j });
            }
            j = j + 1;
        }
        let n = self.segments.len();
        let mut out: Vec<Segment> = Vec::new();
        let mut k: usize = 0;
        while k < n
            invariant
                n == self.segments.len(),
                k <= n,
                out.len() == k,
                all_literal(out@),
                forall|m: int| 0 <= m < k ==> holds_text(#[trigger] out@[m], slot_text(self.segments@[m], self.hunks@)),
                segments_in_range(self.segments@, self.hunks@.len()),
                resolved_text(out@, self.hunks@) == resolved_text(self.segments@.subrange(0, k as int), self.hunks@),
            decreases n - k,
        {
            let ghost before = out@;
            let seg = match &self.segments[k] {
                Segment::Literal(t) => Segment::Literal(t.clone()),
                Segment::Conflict(i) => {
                    let i = *i;
                    assert(i < self.hunks@.len());
                    match &self.hunks[i].state {
                        HunkState::Resolved(res) => {
                            let cs = render_content(&res.content);
                            Segment::Literal(string_of(&cs))
                        },
                        HunkState::Unresolved => Segment::Literal(String::new()),
                    }
                },
            };
            out.push(seg);
            assert(out@.drop_last() =~= before);
            assert(self.segments@.subrange(0, k + 1).drop_last() =~= self.segments@.subrange(0, k as int));
            k = k + 1;
        }
        assert(self.segments@.subrange(0, n as int) =~= self.segments@);
        self.segments = out;
        self.state = LifecycleState::Applied;
        Ok(())
    }

    /// The text of the segments, all of them literal.
    fn assemble(&self) -> (r: Vec<char>)
        requires
            all_literal(self.segments@),
        ensures
            r@ == resolved_text(self.segments@, self.hunks@),
    {
        let mut out: Vec<char> = Vec::new();
        let mut k: usize = 0;
        while k < self.segments.len()
            invariant
                k <= self.segments.len(),
                all_literal(self.segments@),
                out@ == resolved_text(self.segments@.subrange(0, k as int), self.hunks@),
            decreases self.segments.len() - k,
        {
            assert(self.segments@.subrange(0, k + 1).drop_last() =~= self.segments@.subrange(0, k as int));
            assert(self.segments@[k as int] is Literal);
            if let Segment::Literal(t) = &self.segments[k] {
                let cs = chars_of(t.as_str());
                push_all(&mut out, &cs);
            }
            k = k + 1;
        }
        assert(self.segments@.subrange(0, self.segments.len() as int) =~= self.segments@);
        out
    }

    /// Checks the applied text: no marker line is left in it. Needs state
    /// `Applied`; moves to `Validated` on success and changes nothing on
    /// failure.
    pub fn validate(&mut self) -> (r: Result<(), SessionError>)
        requires
            old(self).wf(),
        ensures
            final(self).wf(),
            final(self).spec_segments() == old(self).spec_segments(),
            final(self).spec_hunks() == old(self).spec_hunks(),
            final(self).spec_dedupe() == old(self).spec_dedupe(),
            final(self).spec_cache() == old(self).spec_cache(),
            final(self).spec_path() == old(self).spec_path(),
            old(self).spec_state() != LifecycleState::Applied ==> r == Err::<(), SessionError>(
                SessionError::Lifecycle(
                    LifecycleError { expected: LifecycleState::Applied, actual: old(self).spec_state() },
                ),
            ),
            old(self).spec_state() == LifecycleState::Applied ==> if has_marker(
                resolved_text(old(self).spec_segments(), old(self).spec_hunks()),
            ) {
                r == Err::<(), SessionError>(SessionError::Validation(StructuralError::ResidualMarker))
            } else {
                r is Ok
            },
            final(self).spec_state() == if r is Ok {
                LifecycleState::Validated
            } else {
                old(self).spec_state()
            },
    {
        if self.state != LifecycleState::Applied {
            return Err(SessionError::Lifecycle(LifecycleError { expected: LifecycleState::Applied, actual: self.state }));
        }
        let text = self.assemble();
        if has_marker_line(&text) {
            return Err(SessionError::Validation(StructuralError::ResidualMarker));
        }
        self.state = LifecycleState::Validated;
        Ok(())
    }

    /// Concatenates the segments into the final text, counts the hunks by the
    /// origin of their resolution, and moves to `Completed`. Needs state
    /// `Validated`.
    pub fn complete(&mut self) -> (r: Result<CompletionResult, SessionError>)
        requires
            old(self).wf(),
        ensures
            final(self).wf(),
            final(self).spec_segments() == old(self).spec_segments(),
            final(self).spec_hunks() == old(self).spec_hunks(),
            final(self).spec_dedupe() == old(self).spec_dedupe(),
            final(self).spec_cache() == old(self).spec_cache(),
            final(self).spec_path() == old(self).spec_path(),
            old(self).spec_state() != LifecycleState::Validated ==> (r matches Err(
                SessionError::Lifecycle(e),
            ) && e == (LifecycleError {
                expected: LifecycleState::Validated,
                actual: old(self).spec_state(),
            }) && final(self).spec_state() == old(self).spec_state()),
            old(self).spec_state() == LifecycleState::Validated ==> {
                let states = states_of(old(self).spec_hunks());
                &&& r is Ok
                &&& final(self).spec_state() == LifecycleState::Completed
                &&& r->Ok_0.content@ == resolved_text(old(self).spec_segments(), old(self).spec_hunks())
                &&& r->Ok_0.summary.total_hunks == old(self).spec_hunks().len()
                &&& r->Ok_0.summary.resolved_hunks == old(self).spec_hunks().len()
                &&& r->Ok_0.summary.strategy == origin_count(states, 0)
                &&& r->Ok_0.summary.manual == origin_count(states, 1)
                &&& r->Ok_0.summary.dedupe == origin_count(states, 2)
            },
    {
        if self.state != LifecycleState::Validated {
            return Err(SessionError::Lifecycle(LifecycleError { expected: LifecycleState::Validated, actual: self.state }));
        }
        let text = self.assemble();
        let content = string_of(&text);
        let ghost states = states_of(self.hunks@);
        let n = self.hunks.len();
        let mut strategy: usize = 0;
        let mut manual: usize = 0;
        let mut dedupe: usize = 0;
        let mut j: usize = 0;
        while j < n
            invariant
                n == self.hunks.len(),
                j <= n,
                states == states_of(self.hunks@),
                strategy == origin_count(states.subrange(0, j as int), 0),
                manual == origin_count(states.subrange(0, j as int), 1),
                dedupe == origin_count(states.subrange(0, j as int), 2),
                strategy + manual + dedupe <= j,
            decreases n - j,
        {
            let ghost pre = states.subrange(0, j as int);
            assert(states.subrange(0, j + 1).drop_last() =~= pre);
            assert(states.subrange(0, j + 1).last() == state_view(self.hunks@[j as int].state));
            match &self.hunks[j].state {
                HunkState::Resolved(res) => match res.origin {
                    Origin::Strategy(_) => strategy = strategy + 1,
                    Origin::Manual => manual = manual + 1,
                    Origin::Dedupe(_) => dedupe = dedupe + 1,
                },
                HunkState::Unresolved => {},
            }
            j = j + 1;
        }
        assert(states.subrange(0, n as int) =~= states);
        self.state = LifecycleState::Completed;
        Ok(CompletionResult {
            content,
            summary: Summary { total_hunks: n, resolved_hunks: n, strategy, manual, dedupe },
        })
    }
}

} // verus!
