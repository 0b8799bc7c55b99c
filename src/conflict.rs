//! Conflict-marker parser: turns marker-delimited text into literal pieces
//! and hunks, following a line scanner that is stated as a spec function.
use vstd::prelude::*;

use crate::hunk::{opt_str, opt_strs, strs, text_of, Hunk, HunkState};
use crate::text::{chars_of, copy_range, push_all, string_of};

verus! {

/// Why marker-delimited text could not be parsed. Line numbers start at 1.
#[derive(Debug, Clone, Copy, PartialEq, Eq, Structural)]
pub enum ParseError {
    /// A marker stood where the scanner did not allow it.
    UnexpectedMarker { line: usize },
    /// The input ended inside the hunk opened at `line`.
    UnterminatedConflict { line: usize },
}

/// Where the scanner stands.
#[derive(Debug, Clone, Copy, PartialEq, Eq, Structural)]
pub enum Mode {
    Text,
    Ours,
    Base,
    Theirs,
}

/// `l` is a marker line made of `c`: seven `c`, then the end of the line, a
/// space before a label, or a carriage return.
pub open spec fn is_marker(l: Seq<char>, c: char) -> bool {
    &&& l.len() >= 7
    &&& forall|k: int| 0 <= k < 7 ==> l[k] == c
    &&& (l.len() == 7 || l[7] == ' ' || l[7] == '\r')
}

/// `l` is one of the four marker lines.
pub open spec fn is_any_marker(l: Seq<char>) -> bool {
    is_marker(l, '<') || is_marker(l, '|') || is_marker(l, '=') || is_marker(l, '>')
}

/// The label of a marker line: what follows the marker and its space.
pub open spec fn label_of(l: Seq<char>) -> Seq<char> {
    if l.len() > 7 && l[7] == ' ' {
        l.subrange(8, l.len() as int)
    } else {
        l.subrange(7, l.len() as int)
    }
}

/// The text of one hunk as parsed.
pub struct HunkText {
    pub ours_label: Seq<char>,
    pub base_label: Option<Seq<char>>,
    pub theirs_label: Seq<char>,
    pub ours: Seq<Seq<char>>,
    pub base: Option<Seq<Seq<char>>>,
    pub theirs: Seq<Seq<char>>,
}

/// A piece of parsed text: literal text, or the hunk of the given index.
pub enum Piece {
    Text(Seq<char>),
    Hunk(nat),
}

/// The scanner's state after some lines.
pub struct Scan {
    pub err: Option<ParseError>,
    pub pieces: Seq<Piece>,
    pub hunks: Seq<HunkText>,
    pub mode: Mode,
    pub lit: Seq<char>,
    pub open: HunkText,
    pub open_line: nat,
    pub line: nat,
}

pub open spec fn empty_hunk(label: Seq<char>) -> HunkText {
    HunkText {
        ours_label: label,
        base_label: None,
        theirs_label: Seq::empty(),
        ours: Seq::empty(),
        base: None,
        theirs: Seq::empty(),
    }
}

pub open spec fn start_scan() -> Scan {
    Scan {
        err: None,
        pieces: Seq::empty(),
        hunks: Seq::empty(),
        mode: Mode::Text,
        lit: Seq::empty(),
        open: empty_hunk(Seq::empty()),
        open_line: 0,
        line: 0,
    }
}

/// The pieces so far, with the pending literal text closed off.
pub open spec fn flushed(st: Scan) -> Seq<Piece> {
    if st.lit.len() > 0 {
        st.pieces.push(Piece::Text(st.lit))
    } else {
        st.pieces
    }
}

pub open spec fn fail_at(st: Scan) -> Scan {
    Scan { err: Some(ParseError::UnexpectedMarker { line: (st.line + 1) as usize }), ..st }
}

/// One step of the scanner over line `l` (without its `\n`); `ended` says
/// whether a `\n` followed it.
pub open spec fn step_line(st: Scan, l: Seq<char>, ended: bool) -> Scan {
    let st2 = match st.mode {
        Mode::Text => if is_marker(l, '<') {
            Scan {
                pieces: flushed(st),
                lit: Seq::empty(),
                mode: Mode::Ours,
                open: empty_hunk(label_of(l)),
                open_line: st.line + 1,
                ..st
            }
        } else if is_any_marker(l) {
            fail_at(st)
        } else {
            Scan {
                lit: st.lit + l + (if ended { seq!['\n'] } else { Seq::empty() }),
                ..st
            }
        },
        Mode::Ours => if is_marker(l, '|') {
            Scan {
                mode: Mode::Base,
                open: HunkText {
                    base_label: Some(label_of(l)),
                    base: Some(Seq::empty()),
                    ..st.open
                },
                ..st
            }
        } else if is_marker(l, '=') {
            Scan { mode: Mode::Theirs, ..st }
        } else if is_any_marker(l) {
            fail_at(st)
        } else {
            Scan { open: HunkText { ours: st.open.ours.push(l), ..st.open }, ..st }
        },
        Mode::Base => if is_marker(l, '=') {
            Scan { mode: Mode::Theirs, ..st }
        } else if is_any_marker(l) {
            fail_at(st)
        } else {
            Scan {
                open: HunkText { base: Some(st.open.base.unwrap_or(Seq::empty()).push(l)), ..st.open },
                ..st
            }
        },
        Mode::Theirs => if is_marker(l, '>') {
            Scan {
                pieces: st.pieces.push(Piece::Hunk(st.hunks.len())),
                hunks: st.hunks.push(HunkText { theirs_label: label_of(l), ..st.open }),
                mode: Mode::Text,
                open: empty_hunk(Seq::empty()),
                ..st
            }
        } else if is_any_marker(l) {
            fail_at(st)
        } else {
            Scan { open: HunkText { theirs: st.open.theirs.push(l), ..st.open }, ..st }
        },
    };
    if st.err is Some {
        st
    } else {
        Scan { line: st.line + 1, ..st2 }
    }
}

/// The lines ended by `\n` so far in `s`, and the characters of the line not
/// yet ended.
pub open spec fn split_lines(s: Seq<char>) -> (Seq<Seq<char>>, Seq<char>)
    decreases s.len(),
{
    if s.len() == 0 {
        (Seq::empty(), Seq::empty())
    } else {
        let (ls, cur) = split_lines(s.drop_last());
        if s.last() == '\n' {
            (ls.push(cur), Seq::empty())
        } else {
            (ls, cur.push(s.last()))
        }
    }
}

/// The scanner's state after the ended lines `ls`.
pub open spec fn scan_lines(ls: Seq<Seq<char>>) -> Scan
    decreases ls.len(),
{
    if ls.len() == 0 {
        start_scan()
    } else {
        step_line(scan_lines(ls.drop_last()), ls.last(), true)
    }
}

/// The scanner's state after all of `s`.
pub open spec fn scan_text(s: Seq<char>) -> Scan {
    let (ls, cur) = split_lines(s);
    let st = scan_lines(ls);
    if cur.len() > 0 {
        step_line(st, cur, false)
    } else {
        st
    }
}

/// What parsing `s` gives: its pieces and hunks, or the first error.
pub open spec fn parse_text(s: Seq<char>) -> Result<(Seq<Piece>, Seq<HunkText>), ParseError> {
    let st = scan_text(s);
    match st.err {
        Some(e) => Err(e),
        None => if st.mode != Mode::Text {
            Err(ParseError::UnterminatedConflict { line: st.open_line as usize })
        } else {
            Ok((flushed(st), st.hunks))
        },
    }
}

/// A piece of the session's text: literal text, or the hunk of the given
/// index in the session's hunk list.
#[derive(Debug, Clone)]
pub enum Segment {
    Literal(String),
    Conflict(usize),
}

pub open spec fn piece_of(s: Segment) -> Piece {
    match s {
        Segment::Literal(t) => Piece::Text(t@),
        Segment::Conflict(i) => Piece::Hunk(i as nat),
    }
}

pub open spec fn pieces_of(v: Seq<Segment>) -> Seq<Piece> {
    v.map_values(|s: Segment| piece_of(s))
}

pub open spec fn texts_of(v: Seq<Hunk>) -> Seq<HunkText> {
    v.map_values(|h: Hunk| text_of(h))
}

/// Each hunk knows its position and is still unresolved.
pub open spec fn fresh_hunks(v: Seq<Hunk>) -> bool {
    forall|j: int| 0 <= j < v.len() ==> (#[trigger] v[j]).index == j && v[j].state is Unresolved
}

struct Scanner {
    err: Option<ParseError>,
    segments: Vec<Segment>,
    hunks: Vec<Hunk>,
    mode: Mode,
    lit: Vec<char>,
    ours_label: String,
    base_label: Option<String>,
    ours: Vec<String>,
    base: Option<Vec<String>>,
    theirs: Vec<String>,
    open_line: usize,
    line: usize,
}

spec fn scan_of(sc: Scanner) -> Scan {
    Scan {
        err: sc.err,
        pieces: pieces_of(sc.segments@),
        hunks: texts_of(sc.hunks@),
        mode: sc.mode,
        lit: sc.lit@,
        open: HunkText {
            ours_label: sc.ours_label@,
            base_label: opt_str(sc.base_label),
            theirs_label: Seq::empty(),
            ours: strs(sc.ours@),
            base: opt_strs(sc.base),
            theirs: strs(sc.theirs@),
        },
        open_line: sc.open_line as nat,
        line: sc.line as nat,
    }
}

/// Every conflict segment names a hunk of the list.
pub open spec fn segments_in_range(v: Seq<Segment>, n: nat) -> bool {
    forall|k: int| 0 <= k < v.len() ==> match #[trigger] v[k] {
        Segment::Conflict(i) => i < n,
        Segment::Literal(_) => true,
    }
}

spec fn scanner_wf(sc: Scanner) -> bool {
    &&& fresh_hunks(sc.hunks@)
    &&& segments_in_range(sc.segments@, sc.hunks@.len())
    &&& scan_of(sc).open.theirs_label == Seq::<char>::empty()
}

pub(crate) fn is_marker_line(l: &Vec<char>, c: char) -> (r: bool)
    ensures
        r == is_marker(l@, c),
{
    if l.len() < 7 {
        return false;
    }
    let mut k: usize = 0;
    while k < 7
        invariant
            k <= 7 <= l.len(),
            forall|j: int| 0 <= j < k ==> l@[j] == c,
        decreases 7 - k,
    {
        if l[k] != c {
            return false;
        }
        k = k + 1;
    }
    l.len() == 7 || l[7] == ' ' || l[7] == '\r'
}

fn label_text(l: &Vec<char>) -> (r: String)
    requires
        l.len() >= 7,
    ensures
        r@ == label_of(l@),
{
    let n = l.len();
    let v = if n > 7 && l[7] == ' ' {
        copy_range(l, 8, n)
    } else {
        copy_range(l, 7, n)
    };
    string_of(&v)
}

fn fail_here(sc: &mut Scanner)
    requires
        old(sc).line < usize::MAX,
    ensures
        scan_of(*final(sc)) == fail_at(scan_of(*old(sc))),
        final(sc).segments@ == old(sc).segments@,
        final(sc).hunks@ == old(sc).hunks@,
        final(sc).ours_label == old(sc).ours_label,
        final(sc).base_label == old(sc).base_label,
        final(sc).ours@ == old(sc).ours@,
        final(sc).base == old(sc).base,
        final(sc).theirs@ == old(sc).theirs@,
        final(sc).line == old(sc).line,
        final(sc).mode == old(sc).mode,
        final(sc).lit@ == old(sc).lit@,
        final(sc).open_line == old(sc).open_line,
{
    sc.err = Some(ParseError::UnexpectedMarker { line: sc.line + 1 });
}

fn scan_step(sc: &mut Scanner, l: Vec<char>, ended: bool)
    requires
        scanner_wf(*old(sc)),
        old(sc).line < usize::MAX,
    ensures
        scanner_wf(*final(sc)),
        scan_of(*final(sc)) == step_line(scan_of(*old(sc)), l@, ended),
{
    let ghost st = scan_of(*sc);
    if sc.err.is_some() {
        return;
    }
    let lt = is_marker_line(&l, '<');
    let bar = is_marker_line(&l, '|');
    let eq = is_marker_line(&l, '=');
    let gt = is_marker_line(&l, '>');
    let any = lt || bar || eq || gt;
    let line = sc.line;
    let ghost want = Scan { line: st.line, ..step_line(st, l@, ended) };
    match sc.mode {
        Mode::Text => {
            if lt {
                if sc.lit.len() > 0 {
                    let t = string_of(&sc.lit);
                    sc.segments.push(Segment::Literal(t));
                }
                sc.lit = Vec::new();
                sc.mode = Mode::Ours;
                sc.ours_label = label_text(&l);
                sc.base_label = None;
                sc.ours = Vec::new();
                sc.base = None;
                sc.theirs = Vec::new();
                sc.open_line = sc.line + 1;
                assert(pieces_of(sc.segments@) =~= flushed(st));
                assert(strs(sc.ours@) =~= Seq::<Seq<char>>::empty());
                assert(strs(sc.theirs@) =~= Seq::<Seq<char>>::empty());
            } else if any {
                fail_here(sc);
            } else {
                let ghost before = sc.lit@;
                push_all(&mut sc.lit, &l);
                if ended {
                    sc.lit.push('\n');
                }
                assert(sc.lit@ =~= before + l@ + (if ended { seq!['\n'] } else { Seq::empty() }));
            }
        },
        Mode::Ours => {
            if bar {
                sc.mode = Mode::Base;
                sc.base_label = Some(label_text(&l));
                let e: Vec<String> = Vec::new();
                assert(strs(e@) =~= Seq::<Seq<char>>::empty());
                sc.base = Some(e);
            } else if eq {
                sc.mode = Mode::Theirs;
            } else if any {
                fail_here(sc);
            } else {
                let ghost before = sc.ours@;
                sc.ours.push(string_of(&l));
                assert(strs(sc.ours@) =~= strs(before).push(l@));
            }
        },
        Mode::Base => {
            if eq {
                sc.mode = Mode::Theirs;
            } else if any {
                fail_here(sc);
            } else {
                let ls = string_of(&l);
                let mut b = match sc.base.take() {
                    Some(b) => b,
                    None => Vec::new(),
                };
                let ghost before = b@;
                assert(strs(before) == st.open.base.unwrap_or(Seq::empty()));
                b.push(ls);
                assert(strs(b@) =~= strs(before).push(l@));
                sc.base = Some(b);
            }
        },
        Mode::Theirs => {
            if gt {
                let idx = sc.hunks.len();
                let mut ours: Vec<String> = Vec::new();
                std::mem::swap(&mut ours, &mut sc.ours);
                let mut theirs: Vec<String> = Vec::new();
                std::mem::swap(&mut theirs, &mut sc.theirs);
                let h = Hunk {
                    index: idx,
                    ours_label: sc.ours_label.clone(),
                    theirs_label: label_text(&l),
                    base_label: sc.base_label.take(),
                    ours_lines: ours,
                    theirs_lines: theirs,
                    base_lines: sc.base.take(),
                    state: HunkState::Unresolved,
                };
                let ghost hs = sc.hunks@;
                let ghost segs = sc.segments@;
                sc.segments.push(Segment::Conflict(idx));
                sc.hunks.push(h);
                sc.mode = Mode::Text;
                sc.ours_label = String::new();
                assert(strs(sc.ours@) =~= Seq::<Seq<char>>::empty());
                assert(strs(sc.theirs@) =~= Seq::<Seq<char>>::empty());
                assert(texts_of(sc.hunks@) =~= texts_of(hs).push(HunkText { theirs_label: label_of(l@), ..st.open }));
                assert(pieces_of(sc.segments@) =~= pieces_of(segs).push(Piece::Hunk(hs.len())));
            } else if any {
                fail_here(sc);
            } else {
                let ghost before = sc.theirs@;
                sc.theirs.push(string_of(&l));
                assert(strs(sc.theirs@) =~= strs(before).push(l@));
            }
        },
    }
    assert(scan_of(*sc) =~= want);
    sc.line = line + 1;
}

/// Parses marker-delimited text into segments and hunks, exactly as
/// `parse_text` describes: literal lines coalesce into one segment, each hunk
/// gets the next index and starts unresolved, and a misplaced marker or an
/// unclosed hunk is an error.
pub fn parse(text: &str) -> (r: Result<(Vec<Segment>, Vec<Hunk>), ParseError>)
    ensures
        match parse_text(text@) {
            Err(e) => r == Err::<(Vec<Segment>, Vec<Hunk>), ParseError>(e),
            Ok((ps, hs)) => {
                &&& r is Ok
                &&& pieces_of(r->Ok_0.0@) == ps
                &&& texts_of(r->Ok_0.1@) == hs
                &&& fresh_hunks(r->Ok_0.1@)
                &&& segments_in_range(r->Ok_0.0@, r->Ok_0.1@.len())
            },
        },
{
    let v = chars_of(text);
    let n = v.len();
    let mut sc = Scanner {
        err: None,
        segments: Vec::new(),
        hunks: Vec::new(),
        mode: Mode::Text,
        lit: Vec::new(),
        ours_label: String::new(),
        base_label: None,
        ours: Vec::new(),
        base: None,
        theirs: Vec::new(),
        open_line: 0,
        line: 0,
    };
    assert(strs(sc.ours@) =~= Seq::<Seq<char>>::empty());
    assert(strs(sc.theirs@) =~= Seq::<Seq<char>>::empty());
    assert(pieces_of(sc.segments@) =~= Seq::<Piece>::empty());
    assert(texts_of(sc.hunks@) =~= Seq::<HunkText>::empty());
    assert(scan_of(sc) =~= start_scan());
    let mut cur: Vec<char> = Vec::new();
    let mut i: usize = 0;
    assert(v@.subrange(0, 0) =~= Seq::<char>::empty());
    while i < n
        invariant
            n == v.len(),
            v@ == text@,
            i <= n,
            scanner_wf(sc),
            sc.line + cur.len() <= i,
            cur@ == split_lines(v@.subrange(0, i as int)).1,
            scan_of(sc) == scan_lines(split_lines(v@.subrange(0, i as int)).0),
        decreases n - i,
    {
        let ghost pre = v@.subrange(0, i as int);
        assert(v@.subrange(0, i + 1).drop_last() =~= pre);
        let ghost ls = split_lines(pre).0;
        let c = v[i];
        if c == '\n' {
            let mut line: Vec<char> = Vec::new();
            std::mem::swap(&mut line, &mut cur);
            assert(ls.push(line@).drop_last() =~= ls);
            scan_step(&mut sc, line, true);
        } else {
            cur.push(c);
        }
        i = i + 1;
    }
    assert(v@.subrange(0, n as int) =~= text@);
    if cur.len() > 0 {
        scan_step(&mut sc, cur, false);
    }
    match sc.err {
        Some(e) => {
            return Err(e);
        },
        None => {},
    }
    if sc.mode != Mode::Text {
        return Err(ParseError::UnterminatedConflict { line: sc.open_line });
    }
    let ghost st = scan_of(sc);
    if sc.lit.len() > 0 {
        let t = string_of(&sc.lit);
        sc.segments.push(Segment::Literal(t));
    }
    assert(pieces_of(sc.segments@) =~= flushed(st));
    Ok((sc.segments, sc.hunks))
}

} // verus!
