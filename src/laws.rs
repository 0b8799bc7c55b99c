//! Properties that relate several functions of the library, proved over the
//! spec functions their contracts use.
use vstd::prelude::*;

use crate::conflict::{
    is_any_marker, parse_text, pieces_of, scan_lines, scan_text, split_lines, start_scan,
    HunkText, Mode, ParseError, Piece, Scan, Segment,
};
use crate::conflict::{is_marker, step_line, flushed, empty_hunk};
use crate::headless::{headless_result, side_text};
use crate::hunk::{strategy_lines, Hunk, Origin, StrategyKind};
use crate::session::{after_resolve, fingerprint};
use crate::session::{all_lines, has_marker, render, resolved_text};

verus! {

/// The lines ended so far, each with its `\n`, give back the text before the
/// line not yet ended.
proof fn lemma_split_rejoins(s: Seq<char>)
    ensures
        s == render(split_lines(s).0) + split_lines(s).1,
    decreases s.len(),
{
    if s.len() > 0 {
        lemma_split_rejoins(s.drop_last());
        let (ls, cur) = split_lines(s.drop_last());
        if s.last() == '\n' {
            assert(ls.push(cur).drop_last() =~= ls);
            assert(s =~= s.drop_last().push(s.last()));
            assert(render(ls.push(cur)) + Seq::<char>::empty() =~= render(ls) + cur + seq!['\n']);
        } else {
            assert(s =~= s.drop_last().push(s.last()));
            assert(render(ls) + cur.push(s.last()) =~= render(ls) + cur + seq![s.last()]);
        }
    }
}

/// Lines without markers only extend the literal text.
proof fn lemma_plain_lines(ls: Seq<Seq<char>>)
    requires
        forall|k: int| 0 <= k < ls.len() ==> !is_any_marker(#[trigger] ls[k]),
    ensures
        scan_lines(ls) == (Scan { lit: render(ls), line: ls.len(), ..start_scan() }),
    decreases ls.len(),
{
    if ls.len() > 0 {
        let rest = ls.drop_last();
        assert forall|k: int| 0 <= k < rest.len() implies !is_any_marker(#[trigger] rest[k]) by {
            assert(rest[k] == ls[k]);
        }
        lemma_plain_lines(rest);
        assert(!is_any_marker(ls[ls.len() - 1]));
        assert(render(rest) + ls.last() + seq!['\n'] == render(ls));
    }
}

/// Text without marker lines parses to one literal piece holding all of it
/// (none for empty text) and no hunks, and a session's text made of those
/// pieces is the input again.
pub proof fn law_no_markers_round_trip(s: Seq<char>)
    requires
        !has_marker(s),
    ensures
        parse_text(s) == Ok::<(Seq<Piece>, Seq<HunkText>), ParseError>(
            (if s.len() == 0 { Seq::empty() } else { seq![Piece::Text(s)] }, Seq::empty()),
        ),
        forall|segs: Seq<Segment>, hs: Seq<Hunk>|
            pieces_of(segs) == (if s.len() == 0 { Seq::<Piece>::empty() } else { seq![Piece::Text(s)] })
                ==> #[trigger] resolved_text(segs, hs) == s,
{
    let (ls, cur) = split_lines(s);
    lemma_split_rejoins(s);
    let all = all_lines(s);
    assert forall|k: int| 0 <= k < ls.len() implies !is_any_marker(#[trigger] ls[k]) by {
        assert(all[k] == ls[k]);
        if is_any_marker(ls[k]) {
            assert(is_any_marker(all[k]));
        }
    }
    lemma_plain_lines(ls);
    if cur.len() > 0 {
        assert(all[ls.len() as int] == cur);
        assert(!is_any_marker(cur));
        assert(scan_text(s).lit =~= s);
    } else {
        assert(render(ls) =~= s);
    }
    assert forall|segs: Seq<Segment>, hs: Seq<Hunk>|
        pieces_of(segs) == (if s.len() == 0 { Seq::<Piece>::empty() } else { seq![Piece::Text(s)] })
            implies #[trigger] resolved_text(segs, hs) == s by {
        assert(segs.len() == pieces_of(segs).len());
        if s.len() > 0 {
            assert(pieces_of(segs)[0] == Piece::Text(s));
            assert(segs.drop_last().len() == 0);
            match segs[0] {
                Segment::Literal(t) => {
                    assert(t@ == s);
                },
                Segment::Conflict(_) => {},
            }
            assert(segs.last() == segs[0]);
            assert(resolved_text(segs.drop_last(), hs) == Seq::<char>::empty());
            assert(Seq::<char>::empty() + s =~= s);
        }
    }
}

/// Whether a pass that keeps one side keeps a line read in `mode`.
pub open spec fn keeps(mode: Mode, kind: StrategyKind) -> bool {
    match mode {
        Mode::Text => true,
        Mode::Ours => kind == StrategyKind::Left,
        Mode::Theirs => kind == StrategyKind::Right,
        Mode::Base => false,
    }
}

/// The region that a marker line starts.
pub open spec fn next_mode(mode: Mode, l: Seq<char>) -> Mode {
    if is_marker(l, '<') {
        Mode::Ours
    } else if is_marker(l, '|') {
        Mode::Base
    } else if is_marker(l, '=') {
        Mode::Theirs
    } else if is_marker(l, '>') {
        Mode::Text
    } else {
        mode
    }
}

/// One line of the pass: a marker line is deleted and switches region; any
/// other line is kept where its region is kept.
pub open spec fn strip_step(m: Mode, out: Seq<char>, l: Seq<char>, ended: bool, kind: StrategyKind) -> (Mode, Seq<char>) {
    if is_any_marker(l) {
        (next_mode(m, l), out)
    } else if keeps(m, kind) {
        (m, out + l + (if ended { seq!['\n'] } else { Seq::empty() }))
    } else {
        (m, out)
    }
}

pub open spec fn strip_lines(ls: Seq<Seq<char>>, kind: StrategyKind) -> (Mode, Seq<char>)
    decreases ls.len(),
{
    if ls.len() == 0 {
        (Mode::Text, Seq::empty())
    } else {
        let (m, out) = strip_lines(ls.drop_last(), kind);
        strip_step(m, out, ls.last(), true, kind)
    }
}

/// The text of `s` with every marker line deleted and, of each hunk, only the
/// lines of the side that `kind` picks kept.
pub open spec fn strip_text(s: Seq<char>, kind: StrategyKind) -> Seq<char> {
    let (ls, cur) = split_lines(s);
    let (m, out) = strip_lines(ls, kind);
    if cur.len() > 0 {
        strip_step(m, out, cur, false, kind).1
    } else {
        out
    }
}

spec fn pieces_ok(ps: Seq<Piece>, n: nat) -> bool {
    forall|k: int| 0 <= k < ps.len() ==> match #[trigger] ps[k] {
        Piece::Hunk(i) => i < n,
        Piece::Text(_) => true,
    }
}

/// What the open hunk has given so far to the side that `kind` keeps.
spec fn pending(st: Scan, kind: StrategyKind) -> Seq<char> {
    match st.mode {
        Mode::Text => Seq::empty(),
        Mode::Ours | Mode::Base => if kind == StrategyKind::Left { render(st.open.ours) } else { Seq::empty() },
        Mode::Theirs => if kind == StrategyKind::Left { render(st.open.ours) } else { render(st.open.theirs) },
    }
}

spec fn simulates(st: Scan, m: Mode, out: Seq<char>, kind: StrategyKind) -> bool {
    &&& st.err is None
    &&& m == st.mode
    &&& st.mode != Mode::Text ==> st.lit.len() == 0
    &&& (st.mode == Mode::Ours || st.mode == Mode::Base) ==> st.open.theirs.len() == 0
    &&& pieces_ok(st.pieces, st.hunks.len())
    &&& out == side_text(st.pieces, st.hunks, kind) + st.lit + pending(st, kind)
}

proof fn lemma_side_text_more_hunks(ps: Seq<Piece>, ts: Seq<HunkText>, h: HunkText, kind: StrategyKind)
    requires
        pieces_ok(ps, ts.len()),
    ensures
        side_text(ps, ts.push(h), kind) == side_text(ps, ts, kind),
    decreases ps.len(),
{
    if ps.len() > 0 {
        let rest = ps.drop_last();
        assert forall|k: int| 0 <= k < rest.len() implies match #[trigger] rest[k] {
            Piece::Hunk(i) => i < ts.len(),
            Piece::Text(_) => true,
        } by {
            assert(rest[k] == ps[k]);
        }
        lemma_side_text_more_hunks(rest, ts, h, kind);
        assert(ps.last() == ps[ps.len() - 1]);
        match ps.last() {
            Piece::Hunk(i) => {
                assert(ts.push(h)[i as int] == ts[i as int]);
            },
            Piece::Text(_) => {},
        }
    }
}

proof fn lemma_step_simulates(st: Scan, m: Mode, out: Seq<char>, l: Seq<char>, ended: bool, kind: StrategyKind)
    requires
        kind == StrategyKind::Left || kind == StrategyKind::Right,
        simulates(st, m, out, kind),
        step_line(st, l, ended).err is None,
        ended || st.mode == Mode::Text || is_any_marker(l),
    ensures
        simulates(step_line(st, l, ended), strip_step(m, out, l, ended, kind).0, strip_step(m, out, l, ended, kind).1, kind),
{
    assert(is_marker(l, '<') ==> l[0] == '<');
    assert(is_marker(l, '|') ==> l[0] == '|');
    assert(is_marker(l, '=') ==> l[0] == '=');
    assert(is_marker(l, '>') ==> l[0] == '>');
    let nx = step_line(st, l, ended);
    let (m2, out2) = strip_step(m, out, l, ended, kind);
    let base = side_text(st.pieces, st.hunks, kind);
    let nl: Seq<char> = if ended { seq!['\n'] } else { Seq::empty() };
    match st.mode {
        Mode::Text => {
            if is_marker(l, '<') {
                assert(render(Seq::<Seq<char>>::empty()) == Seq::<char>::empty());
                if st.lit.len() > 0 {
                    let ps2 = st.pieces.push(Piece::Text(st.lit));
                    assert(ps2.drop_last() =~= st.pieces);
                    assert(side_text(ps2, st.hunks, kind) == base + st.lit);
                    assert forall|k: int| 0 <= k < ps2.len() implies match #[trigger] ps2[k] {
                        Piece::Hunk(i) => i < st.hunks.len(),
                        Piece::Text(_) => true,
                    } by {
                        if k < st.pieces.len() {
                            assert(ps2[k] == st.pieces[k]);
                        }
                    }
                    assert(out2 =~= side_text(nx.pieces, nx.hunks, kind) + nx.lit + pending(nx, kind));
                    assert(simulates(nx, m2, out2, kind));
                } else {
                    assert(out2 =~= side_text(nx.pieces, nx.hunks, kind) + nx.lit + pending(nx, kind));
                    assert(simulates(nx, m2, out2, kind));
                }
            } else if is_any_marker(l) {
                assert(nx.err is Some);
            } else {
                assert(pending(st, kind) == Seq::<char>::empty());
                assert(out2 =~= base + (st.lit + l + nl) + Seq::<char>::empty());
                assert(simulates(nx, m2, out2, kind));
            }
        },
        Mode::Ours => {
            if is_marker(l, '|') || is_marker(l, '=') {
                assert(render(Seq::<Seq<char>>::empty()) == Seq::<char>::empty());
                assert(simulates(nx, m2, out2, kind));
            } else if is_any_marker(l) {
                assert(nx.err is Some);
            } else {
                let o2 = st.open.ours.push(l);
                assert(o2.drop_last() =~= st.open.ours);
                assert(ended);
                if kind == StrategyKind::Left {
                    assert(render(o2) == render(st.open.ours) + l + seq!['\n']);
                    assert(out2 =~= side_text(nx.pieces, nx.hunks, kind) + nx.lit + pending(nx, kind));
                }
                assert(simulates(nx, m2, out2, kind));
            }
        },
        Mode::Base => {
            if is_marker(l, '=') {
                assert(render(Seq::<Seq<char>>::empty()) == Seq::<char>::empty());
                assert(simulates(nx, m2, out2, kind));
            } else if is_any_marker(l) {
                assert(nx.err is Some);
            } else {
                assert(simulates(nx, m2, out2, kind));
            }
        },
        Mode::Theirs => {
            if is_marker(l, '>') {
                let h = HunkText { theirs_label: crate::conflict::label_of(l), ..st.open };
                lemma_side_text_more_hunks(st.pieces, st.hunks, h, kind);
                let ps2 = st.pieces.push(Piece::Hunk(st.hunks.len()));
                let ts2 = st.hunks.push(h);
                assert(ps2.drop_last() =~= st.pieces);
                assert(ts2[st.hunks.len() as int] == h);
                assert(side_text(ps2, ts2, kind) == side_text(st.pieces, ts2, kind) + render(strategy_lines(h, kind)->0));
                assert forall|k: int| 0 <= k < ps2.len() implies match #[trigger] ps2[k] {
                    Piece::Hunk(i) => i < ts2.len(),
                    Piece::Text(_) => true,
                } by {
                    if k < st.pieces.len() {
                        assert(ps2[k] == st.pieces[k]);
                    }
                }
                assert(out2 =~= side_text(nx.pieces, nx.hunks, kind) + nx.lit + pending(nx, kind));
                assert(simulates(nx, m2, out2, kind));
            } else if is_any_marker(l) {
                assert(nx.err is Some);
            } else {
                let t2 = st.open.theirs.push(l);
                assert(t2.drop_last() =~= st.open.theirs);
                assert(ended);
                if kind == StrategyKind::Right {
                    assert(render(t2) == render(st.open.theirs) + l + seq!['\n']);
                    assert(out2 =~= side_text(nx.pieces, nx.hunks, kind) + nx.lit + pending(nx, kind));
                }
                assert(simulates(nx, m2, out2, kind));
            }
        },
    }
}

proof fn lemma_lines_simulate(ls: Seq<Seq<char>>, kind: StrategyKind)
    requires
        kind == StrategyKind::Left || kind == StrategyKind::Right,
        scan_lines(ls).err is None,
    ensures
        simulates(scan_lines(ls), strip_lines(ls, kind).0, strip_lines(ls, kind).1, kind),
    decreases ls.len(),
{
    if ls.len() == 0 {
        assert(render(Seq::<Seq<char>>::empty()) == Seq::<char>::empty());
        assert(side_text(Seq::<Piece>::empty(), Seq::<HunkText>::empty(), kind) == Seq::<char>::empty());
        assert(Seq::<char>::empty() + Seq::<char>::empty() + Seq::<char>::empty() =~= Seq::<char>::empty());
    } else {
        let rest = ls.drop_last();
        if scan_lines(rest).err is Some {
            assert(scan_lines(ls).err is Some);
        }
        lemma_lines_simulate(rest, kind);
        let (m, out) = strip_lines(rest, kind);
        lemma_step_simulates(scan_lines(rest), m, out, ls.last(), true, kind);
    }
}

spec fn no_newline(l: Seq<char>) -> bool {
    forall|k: int| 0 <= k < l.len() ==> l[k] != '\n'
}

/// The lines that the one-side pass keeps, and the region it ends in.
spec fn kept_lines(ls: Seq<Seq<char>>, kind: StrategyKind) -> (Mode, Seq<Seq<char>>)
    decreases ls.len(),
{
    if ls.len() == 0 {
        (Mode::Text, Seq::empty())
    } else {
        let (m, k) = kept_lines(ls.drop_last(), kind);
        let l = ls.last();
        if is_any_marker(l) {
            (next_mode(m, l), k)
        } else if keeps(m, kind) {
            (m, k.push(l))
        } else {
            (m, k)
        }
    }
}

proof fn lemma_kept_lines(ls: Seq<Seq<char>>, kind: StrategyKind)
    requires
        forall|q: int| 0 <= q < ls.len() ==> no_newline(#[trigger] ls[q]),
    ensures
        strip_lines(ls, kind) == (kept_lines(ls, kind).0, render(kept_lines(ls, kind).1)),
        forall|q: int| 0 <= q < kept_lines(ls, kind).1.len() ==> no_newline(#[trigger] kept_lines(ls, kind).1[q])
            && !is_any_marker(kept_lines(ls, kind).1[q]),
    decreases ls.len(),
{
    if ls.len() > 0 {
        let rest = ls.drop_last();
        assert forall|q: int| 0 <= q < rest.len() implies no_newline(#[trigger] rest[q]) by {
            assert(rest[q] == ls[q]);
        }
        lemma_kept_lines(rest, kind);
        let (m, k) = kept_lines(rest, kind);
        let l = ls.last();
        assert(no_newline(ls[ls.len() - 1]));
        if !is_any_marker(l) && keeps(m, kind) {
            assert(k.push(l).drop_last() =~= k);
            assert(render(k) + l + (seq!['\n']) == render(k.push(l)));
            assert forall|q: int| 0 <= q < k.push(l).len() implies no_newline(#[trigger] k.push(l)[q])
                && !is_any_marker(k.push(l)[q]) by {
                if q < k.len() {
                    assert(k.push(l)[q] == k[q]);
                }
            }
        }
    }
}

proof fn lemma_split_no_newline(s: Seq<char>)
    ensures
        forall|q: int| 0 <= q < split_lines(s).0.len() ==> no_newline(#[trigger] split_lines(s).0[q]),
        no_newline(split_lines(s).1),
    decreases s.len(),
{
    if s.len() > 0 {
        lemma_split_no_newline(s.drop_last());
        let (ls, cur) = split_lines(s.drop_last());
        if s.last() == '\n' {
            assert forall|q: int| 0 <= q < ls.push(cur).len() implies no_newline(#[trigger] ls.push(cur)[q]) by {
                if q < ls.len() {
                    assert(ls.push(cur)[q] == ls[q]);
                }
            }
        } else {
            assert forall|q: int| 0 <= q < cur.push(s.last()).len() implies cur.push(s.last())[q] != '\n' by {
                if q < cur.len() {
                    assert(cur.push(s.last())[q] == cur[q]);
                }
            }
        }
    }
}

/// Appending text without a newline only extends the line not yet ended.
proof fn lemma_split_append(x: Seq<char>, y: Seq<char>)
    requires
        no_newline(y),
    ensures
        split_lines(x + y) == (split_lines(x).0, split_lines(x).1 + y),
    decreases y.len(),
{
    if y.len() == 0 {
        assert(x + y =~= x);
        assert(split_lines(x).1 + y =~= split_lines(x).1);
    } else {
        let y0 = y.drop_last();
        assert forall|k: int| 0 <= k < y0.len() implies y0[k] != '\n' by {
            assert(y0[k] == y[k]);
        }
        lemma_split_append(x, y0);
        assert((x + y).drop_last() =~= x + y0);
        assert((x + y).last() == y[y.len() - 1]);
        assert((split_lines(x).1 + y0).push(y.last()) =~= split_lines(x).1 + y);
    }
}

/// Newline-free lines, each followed by `\n`, split back into those lines.
proof fn lemma_split_render(k: Seq<Seq<char>>)
    requires
        forall|q: int| 0 <= q < k.len() ==> no_newline(#[trigger] k[q]),
    ensures
        split_lines(render(k)) == (k, Seq::<char>::empty()),
    decreases k.len(),
{
    if k.len() == 0 {
        assert(render(k) =~= Seq::<char>::empty());
    } else {
        let k0 = k.drop_last();
        assert forall|q: int| 0 <= q < k0.len() implies no_newline(#[trigger] k0[q]) by {
            assert(k0[q] == k[q]);
        }
        lemma_split_render(k0);
        assert(no_newline(k[k.len() - 1]));
        lemma_split_append(render(k0), k.last());
        assert(Seq::<char>::empty() + k.last() =~= k.last());
        let t = render(k0) + k.last();
        assert(render(k) == t + seq!['\n']);
        assert((t + seq!['\n']).drop_last() =~= t);
        assert(k0.push(k.last()) =~= k);
    }
}

/// `Left` and `Right` apply to every hunk.
proof fn lemma_sides_always_apply(ts: Seq<HunkText>, kind: StrategyKind, k: int)
    requires
        kind == StrategyKind::Left || kind == StrategyKind::Right,
    ensures
        crate::headless::first_unsupported(ts, kind, k) is None,
    decreases ts.len() - k,
{
    if 0 <= k < ts.len() {
        lemma_sides_always_apply(ts, kind, k + 1);
    }
}

/// The one-side text of any input has no marker line.
proof fn lemma_strip_has_no_marker(s: Seq<char>, kind: StrategyKind)
    ensures
        !has_marker(strip_text(s, kind)),
{
    let (ls, cur) = split_lines(s);
    lemma_split_no_newline(s);
    lemma_kept_lines(ls, kind);
    let (m, k) = kept_lines(ls, kind);
    lemma_split_render(k);
    let c: Seq<char> = if cur.len() > 0 && !is_any_marker(cur) && keeps(m, kind) { cur } else { Seq::empty() };
    assert(strip_text(s, kind) =~= render(k) + c);
    lemma_split_append(render(k), c);
    assert(Seq::<char>::empty() + c =~= c);
    let all = all_lines(render(k) + c);
    assert forall|q: int| 0 <= q < all.len() implies !is_any_marker(#[trigger] all[q]) by {
        if q < k.len() {
            assert(all[q] == k[q]);
        } else {
            assert(all[q] == c);
        }
    }
}

/// Resolving every hunk with `Left` (or `Right`) gives exactly the input with
/// every marker line deleted and, of each hunk, only the ours (or theirs)
/// lines kept; the literal text around the hunks is unchanged. So the
/// headless driver always succeeds on such input, with that text.
pub proof fn law_one_side_kept(s: Seq<char>, kind: StrategyKind)
    requires
        kind == StrategyKind::Left || kind == StrategyKind::Right,
        parse_text(s) is Ok,
    ensures
        side_text((parse_text(s)->Ok_0).0, (parse_text(s)->Ok_0).1, kind) == strip_text(s, kind),
        headless_result(s, kind) == Ok::<Seq<char>, crate::headless::HeadlessError>(strip_text(s, kind)),
{
    lemma_strip_has_no_marker(s, kind);
    lemma_sides_always_apply((parse_text(s)->Ok_0).1, kind, 0);
    let (ls, cur) = split_lines(s);
    let st = scan_lines(ls);
    let fin = scan_text(s);
    if cur.len() > 0 && st.err is Some {
        assert(fin.err is Some);
    }
    lemma_lines_simulate(ls, kind);
    let (m, out) = strip_lines(ls, kind);
    if cur.len() > 0 {
        assert(is_marker(cur, '<') ==> cur[0] == '<');
        assert(is_marker(cur, '|') ==> cur[0] == '|');
        assert(is_marker(cur, '=') ==> cur[0] == '=');
        assert(is_marker(cur, '>') ==> cur[0] == '>');
        if !(st.mode == Mode::Text || is_any_marker(cur)) {
            assert(fin.mode == st.mode);
        }
        lemma_step_simulates(st, m, out, cur, false, kind);
    }
    assert(fin.mode == Mode::Text);
    let (m2, out2) = if cur.len() > 0 { strip_step(m, out, cur, false, kind) } else { (m, out) };
    assert(simulates(fin, m2, out2, kind));
    assert(out2 == strip_text(s, kind));
    assert(pending(fin, kind) == Seq::<char>::empty());
    if fin.lit.len() > 0 {
        let ps2 = fin.pieces.push(Piece::Text(fin.lit));
        assert(ps2.drop_last() =~= fin.pieces);
        assert(side_text(ps2, fin.hunks, kind) == side_text(fin.pieces, fin.hunks, kind) + fin.lit);
        assert(out2 =~= side_text(ps2, fin.hunks, kind));
    } else {
        assert(out2 =~= side_text(fin.pieces, fin.hunks, kind));
    }
    assert(parse_text(s)->Ok_0 == (flushed(fin), fin.hunks));
}

/// With deduplication on, resolving hunk `i` (with no remembered resolution
/// of its content, so the resolution is its own) resolves every other
/// unresolved hunk `j` of identical content too: same lines, origin
/// `Dedupe(i)`.
pub proof fn law_dedupe_propagates(
    old_states: Seq<Option<(Seq<Seq<char>>, Origin)>>,
    ts: Seq<HunkText>,
    i: int,
    j: int,
    lines: Seq<Seq<char>>,
    origin: Origin,
)
    requires
        old_states.len() == ts.len(),
        0 <= i < ts.len(),
        0 <= j < ts.len(),
        i != j,
        old_states[j] is None,
        fingerprint(ts[i]) == fingerprint(ts[j]),
    ensures
        after_resolve(old_states, ts, i, (lines, origin), i as usize, true)[i] == Some((lines, origin)),
        after_resolve(old_states, ts, i, (lines, origin), i as usize, true)[j] == Some(
            (lines, Origin::Dedupe(i as usize)),
        ),
{
}

/// Input that ends inside a hunk (no closing marker) is refused as an
/// unterminated conflict naming the line that opened it; no session is made.
pub proof fn law_unterminated_refused(s: Seq<char>)
    requires
        scan_text(s).err is None,
        scan_text(s).mode != Mode::Text,
    ensures
        parse_text(s) == Err::<(Seq<Piece>, Seq<HunkText>), ParseError>(
            ParseError::UnterminatedConflict { line: scan_text(s).open_line as usize },
        ),
{
}

} // verus!
