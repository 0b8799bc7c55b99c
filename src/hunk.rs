//! Hunks, their resolutions, and the strategies that derive a resolution.
use vstd::prelude::*;

use crate::conflict::HunkText;

verus! {

/// A policy that picks a hunk's resolution without asking anyone.
#[derive(Debug, Clone, Copy, PartialEq, Eq, Structural)]
pub enum StrategyKind {
    /// The "ours" side.
    Left,
    /// The "theirs" side.
    Right,
    /// Ours followed by theirs, duplicates kept.
    Union,
    /// The common ancestor; only for hunks that carry one.
    Base,
}

/// Where a resolution came from.
#[derive(Debug, Clone, Copy, PartialEq, Eq, Structural)]
pub enum Origin {
    Strategy(StrategyKind),
    Manual,
    /// Copied from the resolution of the content-identical hunk of this index.
    Dedupe(usize),
}

/// The lines that replace a hunk, and where they came from.
#[derive(Debug, Clone)]
pub struct Resolution {
    pub content: Vec<String>,
    pub origin: Origin,
}

#[derive(Debug, Clone)]
pub enum HunkState {
    Unresolved,
    Resolved(Resolution),
}

/// One conflicting region: its position among the hunks, its labels, its
/// sides (lines without their `\n`) and its resolution state.
#[derive(Debug, Clone)]
pub struct Hunk {
    pub index: usize,
    pub ours_label: String,
    pub theirs_label: String,
    pub base_label: Option<String>,
    pub ours_lines: Vec<String>,
    pub theirs_lines: Vec<String>,
    pub base_lines: Option<Vec<String>>,
    pub state: HunkState,
}

/// Why a strategy could not resolve a hunk.
#[derive(Debug, Clone, Copy, PartialEq, Eq, Structural)]
pub enum StrategyError {
    /// `Base` was asked of a hunk without base text.
    UnsupportedStrategy { hunk_index: usize },
}

/// The characters of each line.
pub open spec fn strs(v: Seq<String>) -> Seq<Seq<char>> {
    v.map_values(|s: String| s@)
}

pub open spec fn opt_str(o: Option<String>) -> Option<Seq<char>> {
    match o {
        Some(s) => Some(s@),
        None => None,
    }
}

pub open spec fn opt_strs(o: Option<Vec<String>>) -> Option<Seq<Seq<char>>> {
    match o {
        Some(v) => Some(strs(v@)),
        None => None,
    }
}

/// The resolution as lines and origin.
pub open spec fn res_view(r: Resolution) -> (Seq<Seq<char>>, Origin) {
    (strs(r.content@), r.origin)
}

/// The resolved lines and origin of a hunk, if it is resolved.
pub open spec fn state_view(s: HunkState) -> Option<(Seq<Seq<char>>, Origin)> {
    match s {
        HunkState::Unresolved => None,
        HunkState::Resolved(r) => Some(res_view(r)),
    }
}

/// The parsed text of a hunk.
pub open spec fn text_of(h: Hunk) -> HunkText {
    HunkText {
        ours_label: h.ours_label@,
        base_label: opt_str(h.base_label),
        theirs_label: h.theirs_label@,
        ours: strs(h.ours_lines@),
        base: opt_strs(h.base_lines),
        theirs: strs(h.theirs_lines@),
    }
}

/// The lines a strategy picks for a hunk, or `None` where it does not apply.
pub open spec fn strategy_lines(t: HunkText, kind: StrategyKind) -> Option<Seq<Seq<char>>> {
    match kind {
        StrategyKind::Left => Some(t.ours),
        StrategyKind::Right => Some(t.theirs),
        StrategyKind::Union => Some(t.ours + t.theirs),
        StrategyKind::Base => t.base,
    }
}

/// A copy of `v`, line for line.
pub fn copy_lines(v: &Vec<String>) -> (r: Vec<String>)
    ensures
        strs(r@) == strs(v@),
{
    let mut r: Vec<String> = Vec::new();
    let mut i: usize = 0;
    while i < v.len()
        invariant
            i <= v.len(),
            strs(r@) == strs(v@.subrange(0, i as int)),
        decreases v.len() - i,
    {
        let c = v[i].clone();
        let ghost before = r@;
        r.push(c);
        assert(strs(r@) =~= strs(before).push(v@[i as int]@));
        assert(strs(v@.subrange(0, i + 1)) =~= strs(v@.subrange(0, i as int)).push(v@[i as int]@));
        i = i + 1;
    }
    assert(v@.subrange(0, v.len() as int) =~= v@);
    r
}

/// Derives a resolution for `hunk` from `kind`: `Left` takes ours, `Right`
/// theirs, `Union` ours then theirs, `Base` the base lines, and fails with
/// `UnsupportedStrategy` on a hunk without base text.
pub fn apply_strategy(hunk: &Hunk, kind: StrategyKind) -> (r: Result<Resolution, StrategyError>)
    ensures
        match strategy_lines(text_of(*hunk), kind) {
            Some(ls) => r is Ok && res_view(r->Ok_0) == (ls, Origin::Strategy(kind)),
            None => r == Err::<Resolution, StrategyError>(
                StrategyError::UnsupportedStrategy { hunk_index: hunk.index },
            ),
        },
{
    let content = match kind {
        StrategyKind::Left => copy_lines(&hunk.ours_lines),
        StrategyKind::Right => copy_lines(&hunk.theirs_lines),
        StrategyKind::Union => {
            let mut c = copy_lines(&hunk.ours_lines);
            let mut t = copy_lines(&hunk.theirs_lines);
            let ghost a = c@;
            let ghost b = t@;
            c.append(&mut t);
            assert(strs(c@) =~= strs(a) + strs(b));
            c
        },
        StrategyKind::Base => match &hunk.base_lines {
            Some(b) => copy_lines(b),
            None => {
                return Err(StrategyError::UnsupportedStrategy { hunk_index: hunk.index });
            },
        },
    };
    Ok(Resolution { content, origin: Origin::Strategy(kind) })
}

} // verus!
