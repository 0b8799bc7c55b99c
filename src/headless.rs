//! Non-interactive resolution: one strategy for every hunk of a file, and a
//! batch of files processed in order up to the first failure.
use vstd::prelude::*;

use crate::conflict::{parse_text, pieces_of, texts_of, HunkText, ParseError, Piece, Segment};
use crate::hunk::{strategy_lines, Hunk, StrategyKind};
use crate::session::{
    source_lines,
    cache_fp_ok, first_hit, fingerprint,
    all_resolved, has_marker, render, resolved_text, states_of, MergeSession, ResolutionSource,
    ResolveError, SessionError,
};

verus! {

/// Why a file could not be resolved without interaction.
#[derive(Debug, Clone, Copy, PartialEq, Eq, Structural)]
pub enum HeadlessError {
    Parse(ParseError),
    Resolve(ResolveError),
    Session(SessionError),
}

/// The text of the pieces with each hunk replaced by the lines that `kind`
/// picks (none where it does not apply).
pub open spec fn side_text(ps: Seq<Piece>, ts: Seq<HunkText>, kind: StrategyKind) -> Seq<char>
    decreases ps.len(),
{
    if ps.len() == 0 {
        Seq::empty()
    } else {
        side_text(ps.drop_last(), ts, kind) + match ps.last() {
            Piece::Text(t) => t,
            Piece::Hunk(i) => if i < ts.len() {
                match strategy_lines(ts[i as int], kind) {
                    Some(ls) => render(ls),
                    None => Seq::empty(),
                }
            } else {
                Seq::empty()
            },
        }
    }
}

/// The first hunk from `k` on to which `kind` does not apply.
pub open spec fn first_unsupported(ts: Seq<HunkText>, kind: StrategyKind, k: int) -> Option<int>
    decreases ts.len() - k,
{
    if k < 0 || k >= ts.len() {
        None
    } else if strategy_lines(ts[k], kind) is None {
        Some(k)
    } else {
        first_unsupported(ts, kind, k + 1)
    }
}

/// What resolving every hunk of `s` with `kind` gives: the final text, or the
/// first error.
pub open spec fn headless_result(s: Seq<char>, kind: StrategyKind) -> Result<Seq<char>, HeadlessError> {
    match parse_text(s) {
        Err(e) => Err(HeadlessError::Parse(e)),
        Ok((ps, ts)) => match first_unsupported(ts, kind, 0) {
            Some(j) => Err(HeadlessError::Resolve(ResolveError::UnsupportedStrategy { hunk_index: j as usize })),
            None => {
                let out = side_text(ps, ts, kind);
                if has_marker(out) {
                    Err(HeadlessError::Session(SessionError::Validation(crate::session::StructuralError::ResidualMarker)))
                } else {
                    Ok(out)
                }
            },
        },
    }
}

/// With every hunk resolved to the lines `kind` picks, the session's text is
/// the side text of its pieces.
proof fn lemma_resolved_is_side(segs: Seq<Segment>, hs: Seq<Hunk>, kind: StrategyKind)
    requires
        crate::conflict::segments_in_range(segs, hs.len()),
        forall|m: int| 0 <= m < hs.len() ==> (#[trigger] states_of(hs)[m]) is Some
            && strategy_lines(texts_of(hs)[m], kind) == Some((states_of(hs)[m]->0).0),
    ensures
        resolved_text(segs, hs) == side_text(pieces_of(segs), texts_of(hs), kind),
    decreases segs.len(),
{
    if segs.len() > 0 {
        let rest = segs.drop_last();
        assert(pieces_of(segs).drop_last() =~= pieces_of(rest));
        assert forall|k: int| 0 <= k < rest.len() implies match #[trigger] rest[k] {
            Segment::Conflict(i) => i < hs.len(),
            Segment::Literal(_) => true,
        } by {
            assert(rest[k] == segs[k]);
        }
        lemma_resolved_is_side(rest, hs, kind);
        assert(segs.last() == segs[segs.len() - 1]);
        match segs.last() {
            Segment::Conflict(i) => {
                assert(states_of(hs)[i as int] is Some);
            },
            Segment::Literal(_) => {},
        }
    }
}

/// Resolves every hunk of `text` with `kind`, in order (with `dedupe`, later
/// content-identical hunks take the first one's resolution), then applies,
/// validates and completes the session. The result is exactly
/// `headless_result`, whatever `dedupe` is.
pub fn process_text(text: &str, path: String, kind: StrategyKind, dedupe: bool) -> (r: Result<String, HeadlessError>)
    ensures
        match headless_result(text@, kind) {
            Ok(out) => r is Ok && r->Ok_0@ == out,
            Err(e) => r == Err::<String, HeadlessError>(e),
        },
{
    let mut s = match MergeSession::from_conflicted(text, path) {
        Ok(s) => s,
        Err(e) => {
            return Err(HeadlessError::Parse(e));
        },
    };
    let ghost ps = pieces_of(s.spec_segments());
    let ghost ts = texts_of(s.spec_hunks());
    let ghost segs0 = s.spec_segments();
    assert(parse_text(text@) == Ok::<(Seq<Piece>, Seq<HunkText>), ParseError>((ps, ts)));
    s.set_dedupe(dedupe);
    let n = s.hunks().len();
    assert(forall|m: int| 0 <= m < n ==> (#[trigger] states_of(s.spec_hunks())[m]) is None);
    let mut j: usize = 0;
    while j < n
        invariant
            parse_text(text@) == Ok::<(Seq<Piece>, Seq<HunkText>), ParseError>((ps, ts)),
            ps == pieces_of(segs0),
            s.wf(),
            s.spec_state() == crate::session::LifecycleState::Parsed,
            s.spec_segments() == segs0,
            texts_of(s.spec_hunks()) == ts,
            n == s.spec_hunks().len(),
            j <= n,
            forall|m: int| 0 <= m < j ==> (#[trigger] states_of(s.spec_hunks())[m]) is Some,
            forall|m: int| 0 <= m < n && (#[trigger] states_of(s.spec_hunks())[m]) is Some
                ==> strategy_lines(ts[m], kind) == Some((states_of(s.spec_hunks())[m]->0).0),
            cache_fp_ok(s.spec_cache(), ts, kind),
            first_unsupported(ts, kind, 0) == first_unsupported(ts, kind, j as int),
        decreases n - j,
    {
        let ghost old_states = states_of(s.spec_hunks());
        let ghost c0 = s.spec_cache();
        proof {
            crate::session::lemma_first_hit(c0, ts, fingerprint(ts[j as int]));
        }
        match s.resolve(j, ResolutionSource::Strategy(kind)) {
            Ok(()) => {},
            Err(e) => {
                proof {
                    assert(strategy_lines(ts[j as int], kind) is None);
                    assert(first_unsupported(ts, kind, j as int) == Some(j as int));
                    assert(source_lines(ResolutionSource::Strategy(kind), ts[j as int]) is None);
                    assert(e == ResolveError::UnsupportedStrategy { hunk_index: j });
                }
                return Err(HeadlessError::Resolve(e));
            },
        }
        proof {
            assert(strategy_lines(ts[j as int], kind) is Some);
            assert(first_unsupported(ts, kind, j as int) == first_unsupported(ts, kind, j + 1));
            let st = states_of(s.spec_hunks());
            assert forall|m: int| 0 <= m < n && (#[trigger] states_of(s.spec_hunks())[m]) is Some
                implies strategy_lines(ts[m], kind) == Some((states_of(s.spec_hunks())[m]->0).0) by {
                if m != j && old_states[m] is None && fingerprint(ts[m]) == fingerprint(ts[j as int]) {
                    assert(strategy_lines(ts[m], kind) == strategy_lines(ts[j as int], kind));
                }
            }
        }
        j = j + 1;
    }
    proof {
        assert forall|m: int| 0 <= m < n implies (#[trigger] s.spec_hunks()[m]).state is Resolved by {
            assert(states_of(s.spec_hunks())[m] is Some);
        }
        assert(first_unsupported(ts, kind, n as int) is None);
    }
    let ghost hs = s.spec_hunks();
    proof {
        assert(texts_of(hs).len() == hs.len());
        lemma_resolved_is_side(segs0, hs, kind);
    }
    match s.apply() {
        Ok(()) => {},
        Err(e) => {
            return Err(HeadlessError::Session(e));
        },
    }
    match s.validate() {
        Ok(()) => {},
        Err(e) => {
            return Err(HeadlessError::Session(e));
        },
    }
    match s.complete() {
        Ok(res) => {
            Ok(res.content)
        },
        Err(e) => Err(HeadlessError::Session(e)),
    }
}

/// What a batch produced: the final text of each file, in order, up to the
/// first file that failed, and that file's path and error.
#[derive(Debug, Clone)]
pub struct BatchOutcome {
    pub done: Vec<(String, String)>,
    pub failure: Option<(String, HeadlessError)>,
}

/// The first file from `k` on that cannot be resolved with `kind`.
pub open spec fn first_failure(files: Seq<(String, String)>, kind: StrategyKind, k: int) -> Option<int>
    decreases files.len() - k,
{
    if k < 0 || k >= files.len() {
        None
    } else if headless_result(files[k].1@, kind) is Err {
        Some(k)
    } else {
        first_failure(files, kind, k + 1)
    }
}

/// Processes `(path, text)` pairs in order with `kind`, and stops at the
/// first file that fails: files after it are never processed.
pub fn process_batch(files: &Vec<(String, String)>, kind: StrategyKind, dedupe: bool) -> (r: BatchOutcome)
    ensures
        ({
            let stop = match first_failure(files@, kind, 0) {
                Some(k) => k,
                None => files@.len() as int,
            };
            &&& r.done@.len() == stop
            &&& forall|m: int| 0 <= m < stop ==> (#[trigger] r.done@[m]).0@ == files@[m].0@
                && headless_result(files@[m].1@, kind) == Ok::<Seq<char>, HeadlessError>(r.done@[m].1@)
            &&& match first_failure(files@, kind, 0) {
                Some(k) => r.failure is Some && (r.failure->0).0@ == files@[k].0@
                    && headless_result(files@[k].1@, kind) == Err::<Seq<char>, HeadlessError>((r.failure->0).1),
                None => r.failure is None,
            }
        }),
{
    let mut done: Vec<(String, String)> = Vec::new();
    let mut k: usize = 0;
    while k < files.len()
        invariant
            k <= files.len(),
            done@.len() == k,
            first_failure(files@, kind, 0) == first_failure(files@, kind, k as int),
            forall|m: int| 0 <= m < k ==> (#[trigger] done@[m]).0@ == files@[m].0@
                && headless_result(files@[m].1@, kind) == Ok::<Seq<char>, HeadlessError>(done@[m].1@),
        decreases files.len() - k,
    {
        let path = files[k].0.clone();
        match process_text(files[k].1.as_str(), files[k].0.clone(), kind, dedupe) {
            Ok(content) => {
                done.push((path, content));
                assert(first_failure(files@, kind, k as int) == first_failure(files@, kind, k + 1));
            },
            Err(e) => {
                assert(first_failure(files@, kind, k as int) == Some(k as int));
                return BatchOutcome { done, failure: Some((path, e)) };
            },
        }
        k = k + 1;
    }
    BatchOutcome { done, failure: None }
}

} // verus!
