//! Reader for `git status --porcelain=v1` output: picks out the unmerged
//! entries and decodes git's C-style quoting of their paths.
use vstd::prelude::*;
use vstd::utf8::{decode_utf8, encode_utf8, valid_utf8};

use crate::text::{chars_of, copy_range, string_of};

verus! {

/// Conflict type from a porcelain status code.
#[derive(Debug, Clone, Copy, PartialEq, Eq, Structural)]
pub enum ConflictType {
    /// Both sides modified the same file (UU).
    BothModified,
    /// Both sides added the same file (AA).
    BothAdded,
    /// Both sides deleted the same file (DD).
    BothDeleted,
    /// Added by us, deleted by them (AU or UD).
    AddedByUsDeletedByThem,
    /// Added by them, deleted by us (UA or DU).
    AddedByThemDeletedByUs,
}

/// A conflicted file entry from porcelain output.
#[derive(Debug, Clone, PartialEq, Eq)]
pub struct ConflictEntry {
    /// The path to the conflicted file, unquoted.
    pub path: String,
    /// The type of conflict.
    pub conflict_type: ConflictType,
}

/// The conflict type that a two-character status code stands for, if any.
pub open spec fn code_type(x: char, y: char) -> Option<ConflictType> {
    if x == 'U' && y == 'U' {
        Some(ConflictType::BothModified)
    } else if x == 'A' && y == 'A' {
        Some(ConflictType::BothAdded)
    } else if x == 'D' && y == 'D' {
        Some(ConflictType::BothDeleted)
    } else if (x == 'A' && y == 'U') || (x == 'U' && y == 'D') {
        Some(ConflictType::AddedByUsDeletedByThem)
    } else if (x == 'U' && y == 'A') || (x == 'D' && y == 'U') {
        Some(ConflictType::AddedByThemDeletedByUs)
    } else {
        None
    }
}

/// Checks whether the status code `xy` marks an unmerged path.
pub fn is_unmerged(x: char, y: char) -> (r: Option<ConflictType>)
    ensures
        r == code_type(x, y),
{
    if x == 'U' && y == 'U' {
        Some(ConflictType::BothModified)
    } else if x == 'A' && y == 'A' {
        Some(ConflictType::BothAdded)
    } else if x == 'D' && y == 'D' {
        Some(ConflictType::BothDeleted)
    } else if (x == 'A' && y == 'U') || (x == 'U' && y == 'D') {
        Some(ConflictType::AddedByUsDeletedByThem)
    } else if (x == 'U' && y == 'A') || (x == 'D' && y == 'U') {
        Some(ConflictType::AddedByThemDeletedByUs)
    } else {
        None
    }
}

pub open spec fn is_digit(c: u8) -> bool {
    48 <= c && c <= 57
}

pub open spec fn is_octal_digit(c: u8) -> bool {
    48 <= c && c <= 55
}

pub open spec fn digit_value(c: u8) -> int {
    (c as int) - 48
}

/// How many octal digits (at most two) follow the first digit of an octal
/// escape whose first digit stands at `s[1]`.
pub open spec fn octal_tail_len(s: Seq<u8>) -> int {
    if s.len() > 2 && is_octal_digit(s[2]) {
        if s.len() > 3 && is_octal_digit(s[3]) {
            2
        } else {
            1
        }
    } else {
        0
    }
}

/// The value of the octal escape whose digits are `s[1..2 + octal_tail_len(s)]`,
/// or `None` where a digit is not octal or the value does not fit in a byte.
pub open spec fn octal_value(s: Seq<u8>) -> Option<int> {
    let k = octal_tail_len(s);
    if !is_octal_digit(s[1]) {
        None
    } else {
        let v = if k == 0 {
            digit_value(s[1])
        } else if k == 1 {
            digit_value(s[1]) * 8 + digit_value(s[2])
        } else {
            digit_value(s[1]) * 64 + digit_value(s[2]) * 8 + digit_value(s[3])
        };
        if v <= 255 {
            Some(v)
        } else {
            None
        }
    }
}

/// The bytes that the escape starting at `s[0]` (a backslash) stands for, and
/// how many bytes of `s` it takes. An octal escape stands for one raw byte.
pub open spec fn decode_escape(s: Seq<u8>) -> (Seq<u8>, int) {
    if s.len() == 1 {
        (seq![92u8], 1)
    } else if s[1] == 92 {
        (seq![92u8], 2)
    } else if s[1] == 34 {
        (seq![34u8], 2)
    } else if s[1] == 110 {
        (seq![10u8], 2)
    } else if s[1] == 116 {
        (seq![9u8], 2)
    } else if s[1] == 114 {
        (seq![13u8], 2)
    } else if is_digit(s[1]) {
        let used = 2 + octal_tail_len(s);
        match octal_value(s) {
            Some(v) => (seq![v as u8], used),
            None => (Seq::empty(), used),
        }
    } else {
        (seq![92u8, s[1]], 2)
    }
}

/// The bytes of a quoted path body with every escape sequence decoded.
pub open spec fn unescape(s: Seq<u8>) -> Seq<u8>
    decreases s.len(),
{
    if s.len() == 0 {
        Seq::empty()
    } else if s[0] != 92 {
        seq![s[0]] + unescape(s.drop_first())
    } else {
        let (out, used) = decode_escape(s);
        if 0 < used <= s.len() {
            out + unescape(s.subrange(used, s.len() as int))
        } else {
            out
        }
    }
}

/// The body between the surrounding quotes of a quoted path; a path whose
/// closing quote is missing keeps all its bytes.
pub open spec fn quoted_body(s: Seq<u8>) -> Seq<u8> {
    if s.len() >= 2 && s[s.len() - 1] == 34 {
        s.subrange(1, s.len() - 1)
    } else {
        s
    }
}

/// The text that `String::from_utf8_lossy` makes of `b`.
pub uninterp spec fn lossy_utf8(b: Seq<u8>) -> Seq<char>;

/// A path as git prints it, with its quoting undone: the unescaped bytes are
/// read as UTF-8, so consecutive octal escapes make up one character.
pub open spec fn unquoted(s: Seq<char>) -> Seq<char> {
    let b = encode_utf8(s);
    if b.len() > 0 && b[0] == 34 {
        lossy_utf8(unescape(quoted_body(b)))
    } else {
        s
    }
}

/// Relies on `String::from_utf8_lossy`: valid UTF-8 is decoded as it is, and
/// each invalid sequence becomes U+FFFD.
#[verifier::external_body]
fn utf8_lossy(b: &Vec<u8>) -> (r: String)
    ensures
        r@ == lossy_utf8(b@),
        valid_utf8(b@) ==> r@ == decode_utf8(b@),
{
    String::from_utf8_lossy(b).into_owned()
}

/// Decodes the escape sequence that starts at `b[i]`.
fn decode_escape_at(b: &Vec<u8>, i: usize) -> (r: (Vec<u8>, usize))
    requires
        i < b.len(),
        b[i as int] == 92,
    ensures
        (r.0@, r.1 as int) == decode_escape(b@.subrange(i as int, b.len() as int)),
{
    let ghost s = b@.subrange(i as int, b.len() as int);
    let n = b.len();
    if i + 1 == n {
        return (vec![92u8], 1);
    }
    let e = b[i + 1];
    assert(s[1] == e);
    if e == 92 {
        (vec![92u8], 2)
    } else if e == 34 {
        (vec![34u8], 2)
    } else if e == 110 {
        (vec![10u8], 2)
    } else if e == 116 {
        (vec![9u8], 2)
    } else if e == 114 {
        (vec![13u8], 2)
    } else if 48 <= e && e <= 57 {
        let mut k: usize = 0;
        if i + 2 < n && 48 <= b[i + 2] && b[i + 2] <= 55 {
            assert(s[2] == b[i + 2]);
            k = 1;
            if i + 3 < n && 48 <= b[i + 3] && b[i + 3] <= 55 {
                assert(s[3] == b[i + 3]);
                k = 2;
            }
        }
        assert(k == octal_tail_len(s));
        if e > 55 {
            return (Vec::new(), 2 + k);
        }
        let d1 = (e as u32) - 48;
        let v: u32 = if k == 0 {
            d1
        } else if k == 1 {
            d1 * 8 + ((b[i + 2] as u32) - 48)
        } else {
            d1 * 64 + ((b[i + 2] as u32) - 48) * 8 + ((b[i + 3] as u32) - 48)
        };
        if v <= 255 {
            (vec![v as u8], 2 + k)
        } else {
            (Vec::new(), 2 + k)
        }
    } else {
        (vec![92u8, e], 2)
    }
}

/// Decodes every escape sequence of the quoted path body `b`: `\\`, `\"`,
/// `\n`, `\t`, `\r`, and octal `\ddd` as one raw byte (dropped where it is
/// no byte); an unknown escape is kept as it stands.
pub fn unescape_bytes(b: &Vec<u8>) -> (r: Vec<u8>)
    ensures
        r@ == unescape(b@),
{
    let n = b.len();
    let mut out: Vec<u8> = Vec::new();
    let mut i: usize = 0;
    assert(b@.subrange(0, n as int) =~= b@);
    while i < n
        invariant
            n == b.len(),
            i <= n,
            out@ + unescape(b@.subrange(i as int, n as int)) == unescape(b@),
        decreases n - i,
    {
        let ghost rest = b@.subrange(i as int, n as int);
        let c = b[i];
        if c != 92 {
            let ghost before = out@;
            assert(rest.drop_first() =~= b@.subrange(i + 1, n as int));
            out.push(c);
            assert(out@ + unescape(rest.drop_first()) =~= before + (seq![c] + unescape(rest.drop_first())));
            i = i + 1;
        } else {
            let (piece, used) = decode_escape_at(b, i);
            assert(rest.subrange(used as int, rest.len() as int) =~= b@.subrange(i + used, n as int));
            let ghost before = out@;
            let mut j: usize = 0;
            while j < piece.len()
                invariant
                    j <= piece.len(),
                    out@ == before + piece@.subrange(0, j as int),
                decreases piece.len() - j,
            {
                out.push(piece[j]);
                assert(out@ =~= before + piece@.subrange(0, j + 1));
                j = j + 1;
            }
            assert(piece@.subrange(0, piece.len() as int) =~= piece@);
            let ghost tail = unescape(b@.subrange(i + used, n as int));
            assert(out@ + tail =~= before + (piece@ + tail));
            i = i + used;
        }
    }
    assert(b@.subrange(n as int, n as int) =~= Seq::<u8>::empty());
    assert(out@ + Seq::<u8>::empty() =~= out@);
    out
}

/// Unquotes a git-quoted path: a path that starts with `"` loses its
/// surrounding quotes, has its C-style escapes decoded, and the resulting
/// bytes are read as UTF-8 (invalid sequences become U+FFFD); any other path
/// is returned as it is.
pub fn unquote_path(s: &str) -> (r: String)
    ensures
        r@ == unquoted(s@),
{
    let bytes = s.as_bytes();
    let n = bytes.len();
    if n == 0 || bytes[0] != 34 {
        return s.to_owned();
    }
    let (lo, hi) = if n >= 2 && bytes[n - 1] == 34 {
        (1, n - 1)
    } else {
        (0, n)
    };
    let mut body: Vec<u8> = Vec::new();
    let mut k: usize = lo;
    while k < hi
        invariant
            lo <= k <= hi <= n,
            n == bytes@.len(),
            body@ == bytes@.subrange(lo as int, k as int),
        decreases hi - k,
    {
        body.push(bytes[k]);
        assert(body@ =~= bytes@.subrange(lo as int, k + 1));
        k = k + 1;
    }
    assert(body@ =~= quoted_body(bytes@));
    let u = unescape_bytes(&body);
    utf8_lossy(&u)
}

/// A line with one trailing carriage return removed.
pub open spec fn strip_cr(l: Seq<char>) -> Seq<char> {
    if l.len() > 0 && l.last() == '\r' {
        l.drop_last()
    } else {
        l
    }
}

/// The lines ended so far in `s` (each without its `\n` or `\r\n`), and the
/// characters of the line not yet ended.
pub open spec fn split_state(s: Seq<char>) -> (Seq<Seq<char>>, Seq<char>)
    decreases s.len(),
{
    if s.len() == 0 {
        (Seq::empty(), Seq::empty())
    } else {
        let (ls, cur) = split_state(s.drop_last());
        if s.last() == '\n' {
            (ls.push(strip_cr(cur)), Seq::empty())
        } else {
            (ls, cur.push(s.last()))
        }
    }
}

/// The lines of `s`: split at each `\n` or `\r\n`; the final line ending is
/// optional, so no empty line follows it.
pub open spec fn lines_of(s: Seq<char>) -> Seq<Seq<char>> {
    let (ls, cur) = split_state(s);
    if cur.len() > 0 {
        ls.push(cur)
    } else {
        ls
    }
}

/// The entry that one status line stands for: its path (from the fourth
/// character on, unquoted) and its conflict type, where the line has at least
/// four characters and an unmerged status code.
pub open spec fn entry_of_line(l: Seq<char>) -> Option<(Seq<char>, ConflictType)> {
    if l.len() < 4 {
        None
    } else {
        match code_type(l[0], l[1]) {
            Some(t) => Some((unquoted(l.subrange(3, l.len() as int)), t)),
            None => None,
        }
    }
}

/// The entries of the unmerged lines among `ls`, in order.
pub open spec fn entries_of(ls: Seq<Seq<char>>) -> Seq<(Seq<char>, ConflictType)>
    decreases ls.len(),
{
    if ls.len() == 0 {
        Seq::empty()
    } else {
        let before = entries_of(ls.drop_last());
        match entry_of_line(ls.last()) {
            Some(e) => before.push(e),
            None => before,
        }
    }
}

/// `es` holds exactly the entries `m`, in order.
pub open spec fn entries_match(es: Seq<ConflictEntry>, m: Seq<(Seq<char>, ConflictType)>) -> bool {
    &&& es.len() == m.len()
    &&& forall|i: int| 0 <= i < es.len() ==> (#[trigger] es[i]).path@ == m[i].0
        && es[i].conflict_type == m[i].1
}

fn entry_of(l: &Vec<char>) -> (r: Option<ConflictEntry>)
    ensures
        match entry_of_line(l@) {
            None => r is None,
            Some(e) => r is Some && r->0.path@ == e.0 && r->0.conflict_type == e.1,
        },
{
    let n = l.len();
    if n < 4 {
        return None;
    }
    match is_unmerged(l[0], l[1]) {
        None => None,
        Some(t) => {
            let raw = copy_range(l, 3, n);
            let raw_text = string_of(&raw);
            Some(ConflictEntry { path: unquote_path(raw_text.as_str()), conflict_type: t })
        },
    }
}

fn push_entry_of(out: &mut Vec<ConflictEntry>, l: &Vec<char>, Ghost(ls): Ghost<Seq<Seq<char>>>)
    requires
        entries_match(old(out)@, entries_of(ls)),
    ensures
        entries_match(final(out)@, entries_of(ls.push(l@))),
{
    assert(ls.push(l@).drop_last() =~= ls);
    match entry_of(l) {
        Some(e) => {
            out.push(e);
        },
        None => {},
    }
}

/// Parses `git status --porcelain=v1` output and returns its conflicted
/// entries in order: `UU` both modified, `AA` both added, `DD` both deleted,
/// `AU`/`UD` added by us, `UA`/`DU` added by them. Other lines, and lines of
/// fewer than four characters, are skipped. Quoted paths are unquoted.
pub fn parse_porcelain_v1(output: &str) -> (r: Vec<ConflictEntry>)
    ensures
        entries_match(r@, entries_of(lines_of(output@))),
{
    let v = chars_of(output);
    let n = v.len();
    let mut out: Vec<ConflictEntry> = Vec::new();
    let mut cur: Vec<char> = Vec::new();
    let mut i: usize = 0;
    assert(v@.subrange(0, 0) =~= Seq::<char>::empty());
    while i < n
        invariant
            n == v.len(),
            v@ == output@,
            i <= n,
            cur@ == split_state(v@.subrange(0, i as int)).1,
            entries_match(out@, entries_of(split_state(v@.subrange(0, i as int)).0)),
        decreases n - i,
    {
        let ghost pre = v@.subrange(0, i as int);
        assert(v@.subrange(0, i + 1).drop_last() =~= pre);
        let c = v[i];
        if c == '\n' {
            let m = cur.len();
            let line = if m > 0 && cur[m - 1] == '\r' {
                copy_range(&cur, 0, m - 1)
            } else {
                copy_range(&cur, 0, m)
            };
            assert(line@ =~= strip_cr(cur@));
            push_entry_of(&mut out, &line, Ghost(split_state(pre).0));
            cur = Vec::new();
        } else {
            cur.push(c);
        }
        i = i + 1;
    }
    assert(v@.subrange(0, n as int) =~= output@);
    if cur.len() > 0 {
        push_entry_of(&mut out, &cur, Ghost(split_state(output@).0));
    }
    out
}

} // verus!
