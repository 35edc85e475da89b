//! Field paths: `name`, `a.b.c`, `items[0]`, `metadata["key"]`,
//! `metadata['key']` and any combination of these.

use vstd::prelude::*;

use crate::error::{ProtoDuckError, ProtoDuckErrorView};
use crate::text::{parse_unsigned, parse_unsigned_chars, str_to_chars, string_from_chars};

verus! {

/// One step of a field path.
#[derive(Debug)]
pub enum PathPart {
    /// A field of a message, by name.
    Field(String),
    /// A position in a repeated field (or an integer map key).
    Index(usize),
    /// A key of a map field.
    MapKey(String),
}

/// The abstract value of a [`PathPart`].
pub enum PathPartView {
    Field(Seq<char>),
    Index(usize),
    MapKey(Seq<char>),
}

impl View for PathPart {
    type V = PathPartView;

    open spec fn view(&self) -> PathPartView {
        match self {
            PathPart::Field(s) => PathPartView::Field(s@),
            PathPart::Index(i) => PathPartView::Index(*i),
            PathPart::MapKey(k) => PathPartView::MapKey(k@),
        }
    }
}

/// The views of a sequence of path parts.
pub open spec fn parts_view(parts: Seq<PathPart>) -> Seq<PathPartView> {
    parts.map_values(|p: PathPart| p@)
}

/// Why a text is not a field path.
pub enum PathSyntaxError {
    /// The path holds no part at all.
    Empty,
    /// A quoted map key is not closed by its quote followed by `]`.
    UnclosedQuotedKey,
}

/// Appends the pending field name `cur`, if it is not empty.
pub open spec fn flush_field(parts: Seq<PathPartView>, cur: Seq<char>) -> Seq<PathPartView> {
    if cur.len() > 0 {
        parts.push(PathPartView::Field(cur))
    } else {
        parts
    }
}

/// The first position at or after `i` that holds `c`, or `s.len()` if none does.
pub open spec fn find_char(s: Seq<char>, i: int, c: char) -> int
    decreases s.len() - i,
{
    if i >= s.len() {
        s.len() as int
    } else if s[i] == c {
        i
    } else {
        find_char(s, i + 1, c)
    }
}

/// The part that an unquoted bracket body stands for: an index when it
/// parses as a `usize`, a map key otherwise.
pub open spec fn bracket_part(body: Seq<char>) -> PathPartView {
    match parse_unsigned(body, usize::MAX as nat) {
        Some(n) => PathPartView::Index(n as usize),
        None => PathPartView::MapKey(body),
    }
}

/// Parsing of `s` from position `i`, with the pending field name `cur` and the
/// parts found so far. A `.` ends a field name; `[` ends it too and opens a
/// bracket. A bracket whose first character is `'` or `"` holds a map key up
/// to the matching quote, which must be followed by `]`; any other bracket
/// runs up to the next `]` (or the end of the text) and holds an index or a
/// map key. Empty field names are skipped. A path without parts is refused.
pub open spec fn parse_path_from(
    s: Seq<char>,
    i: int,
    cur: Seq<char>,
    parts: Seq<PathPartView>,
) -> Result<Seq<PathPartView>, PathSyntaxError>
    decreases s.len() - i,
{
    if i >= s.len() {
        let done = flush_field(parts, cur);
        if done.len() == 0 {
            Err(PathSyntaxError::Empty)
        } else {
            Ok(done)
        }
    } else if s[i] == '.' {
        parse_path_from(s, i + 1, seq![], flush_field(parts, cur))
    } else if s[i] == '[' {
        let before = flush_field(parts, cur);
        if i + 1 < s.len() && (s[i + 1] == '\'' || s[i + 1] == '"') {
            let close = find_char(s, i + 2, s[i + 1]);
            proof {
                lemma_find_char_bounds(s, i + 2, s[i + 1]);
            }
            if close + 1 < s.len() && s[close + 1] == ']' {
                parse_path_from(
                    s,
                    close + 2,
                    seq![],
                    before.push(PathPartView::MapKey(s.subrange(i + 2, close))),
                )
            } else {
                Err(PathSyntaxError::UnclosedQuotedKey)
            }
        } else {
            let close = find_char(s, i + 1, ']');
            proof {
                lemma_find_char_bounds(s, i + 1, ']');
            }
            let next = if close < s.len() { close + 1 } else { s.len() as int };
            parse_path_from(
                s,
                next,
                seq![],
                before.push(bracket_part(s.subrange(i + 1, close))),
            )
        }
    } else {
        parse_path_from(s, i + 1, cur.push(s[i]), parts)
    }
}

/// The parts of the field path `s`, or why it is not one.
pub open spec fn parse_path(s: Seq<char>) -> Result<Seq<PathPartView>, PathSyntaxError> {
    parse_path_from(s, 0, seq![], seq![])
}

/// The error that [`parse_field_path`] reports for a syntax error.
pub open spec fn path_syntax_error_view(e: PathSyntaxError) -> ProtoDuckErrorView {
    match e {
        PathSyntaxError::Empty => ProtoDuckErrorView::InvalidFieldPath("Empty field path"@),
        PathSyntaxError::UnclosedQuotedKey => ProtoDuckErrorView::InvalidFieldPath(
            "Expected ']' after quoted map key"@,
        ),
    }
}

pub proof fn lemma_find_char_bounds(s: Seq<char>, i: int, c: char)
    ensures
        i <= s.len() ==> i <= find_char(s, i, c) <= s.len(),
        i > s.len() ==> find_char(s, i, c) == s.len(),
        find_char(s, i, c) < s.len() ==> s[find_char(s, i, c)] == c,
        forall|k: int| i <= k < find_char(s, i, c) ==> s[k] != c,
    decreases s.len() - i,
{
    if i < s.len() && s[i] != c {
        lemma_find_char_bounds(s, i + 1, c);
    }
}

/// Scans from `start` to the first occurrence of `c` (or the end); returns
/// that position and the characters before it.
fn scan_until(s: &Vec<char>, start: usize, c: char) -> (r: (usize, Vec<char>))
    requires
        start <= s@.len(),
    ensures
        r.0 as int == find_char(s@, start as int, c),
        r.1@ == s@.subrange(start as int, r.0 as int),
{
    let mut j: usize = start;
    let mut taken: Vec<char> = Vec::new();
    while j < s.len() && s[j] != c
        invariant
            start <= j <= s@.len(),
            find_char(s@, start as int, c) == find_char(s@, j as int, c),
            taken@ == s@.subrange(start as int, j as int),
        decreases s.len() - j,
    {
        taken.push(s[j]);
        j = j + 1;
        assert(taken@ =~= s@.subrange(start as int, j as int));
    }
    (j, taken)
}

fn flush(parts: &mut Vec<PathPart>, cur: &mut Vec<char>)
    ensures
        parts_view(final(parts)@) == flush_field(parts_view(old(parts)@), old(cur)@),
        final(cur)@ == Seq::<char>::empty(),
{
    if cur.len() > 0 {
        let name = string_from_chars(cur.as_slice());
        let ghost before = parts@;
        parts.push(PathPart::Field(name));
        assert(parts_view(parts@) =~= parts_view(before).push(PathPartView::Field(old(cur)@)));
        *cur = Vec::new();
    }
}

/// Splits a field path into its parts (see [`parse_path_from`] for the syntax).
pub fn parse_field_path(path: &str) -> (r: Result<Vec<PathPart>, ProtoDuckError>)
    ensures
        match parse_path(path@) {
            Ok(parts) => r matches Ok(v) && parts_view(v@) == parts,
            Err(e) => r matches Err(err) && err@ == path_syntax_error_view(e),
        },
{
    let s = str_to_chars(path);
    let n = s.len();
    let mut parts: Vec<PathPart> = Vec::new();
    let mut cur: Vec<char> = Vec::new();
    let mut i: usize = 0;
    assert(parts_view(parts@) =~= Seq::<PathPartView>::empty());
    while i < n
        invariant
            n == s@.len(),
            s@ == path@,
            i <= n,
            parse_path(s@) == parse_path_from(s@, i as int, cur@, parts_view(parts@)),
        decreases n - i,
    {
        let c = s[i];
        if c == '.' {
            flush(&mut parts, &mut cur);
            i = i + 1;
        } else if c == '[' {
            flush(&mut parts, &mut cur);
            if i + 1 < n && (s[i + 1] == '\'' || s[i + 1] == '"') {
                let q = s[i + 1];
                let (close, key) = scan_until(&s, i + 2, q);
                proof {
                    lemma_find_char_bounds(s@, i + 2, q);
                }
                if close < n && close + 1 < n && s[close + 1] == ']' {
                    let ghost before = parts@;
                    parts.push(PathPart::MapKey(string_from_chars(key.as_slice())));
                    assert(parts_view(parts@) =~= parts_view(before).push(
                        PathPartView::MapKey(s@.subrange(i + 2, close as int)),
                    ));
                    i = close + 2;
                } else {
                    return Err(
                        ProtoDuckError::InvalidFieldPath(
                            String::from_str("Expected ']' after quoted map key"),
                        ),
                    );
                }
            } else {
                let (close, body) = scan_until(&s, i + 1, ']');
                proof {
                    lemma_find_char_bounds(s@, i + 1, ']');
                }
                let part = match parse_unsigned_chars(body.as_slice(), usize::MAX as u64) {
                    Some(v) => PathPart::Index(v as usize),
                    None => PathPart::MapKey(string_from_chars(body.as_slice())),
                };
                let ghost before = parts@;
                parts.push(part);
                assert(parts_view(parts@) =~= parts_view(before).push(
                    bracket_part(s@.subrange(i + 1, close as int)),
                ));
                i = if close < n { close + 1 } else { n };
            }
        } else {
            cur.push(c);
            i = i + 1;
        }
    }
    flush(&mut parts, &mut cur);
    if parts.len() == 0 {
        return Err(ProtoDuckError::InvalidFieldPath(String::from_str("Empty field path")));
    }
    Ok(parts)
}

} // verus!

verus! {

/// How a part is written in a path, with map keys quoted by `q`: a field by
/// its name (after a `.` unless it comes first), an index as `[n]`, a map
/// key as `["key"]` (or `['key']`).
pub open spec fn render_part(p: PathPartView, first: bool, q: char) -> Seq<char> {
    match p {
        PathPartView::Field(n) => if first {
            n
        } else {
            seq!['.'] + n
        },
        PathPartView::Index(i) => seq!['['] + crate::text::nat_decimal(i as nat) + seq![']'],
        PathPartView::MapKey(k) => seq!['[', q] + k + seq![q, ']'],
    }
}

/// The path that writes `parts` one after the other, map keys quoted by `q`.
pub open spec fn render_path(parts: Seq<PathPartView>, q: char) -> Seq<char>
    decreases parts.len(),
{
    if parts.len() == 0 {
        seq![]
    } else {
        render_path(parts.drop_last(), q) + render_part(parts.last(), parts.len() == 1, q)
    }
}

/// Parts that can be written as a path with map keys quoted by `q`: field
/// names are not empty and hold neither `.` nor `[`, map keys hold no `q`.
pub open spec fn renderable(parts: Seq<PathPartView>, q: char) -> bool {
    forall|k: int|
        0 <= k < parts.len() ==> match #[trigger] parts[k] {
            PathPartView::Field(n) => n.len() > 0 && !n.contains('.') && !n.contains('['),
            PathPartView::MapKey(key) => !key.contains(q),
            PathPartView::Index(_) => true,
        }
}

/// The pending field name after the first `k` parts have been read.
spec fn pending_name(parts: Seq<PathPartView>, k: int) -> Seq<char> {
    if k > 0 && parts[k - 1] is Field {
        parts[k - 1]->Field_0
    } else {
        seq![]
    }
}

/// The parts completed after the first `k` parts have been read.
spec fn completed_parts(parts: Seq<PathPartView>, k: int) -> Seq<PathPartView> {
    if k > 0 && parts[k - 1] is Field {
        parts.take(k - 1)
    } else {
        parts.take(k)
    }
}

proof fn lemma_render_prefix(parts: Seq<PathPartView>, k: int, q: char)
    requires
        0 <= k <= parts.len(),
    ensures
        render_path(parts.take(k), q).is_prefix_of(render_path(parts, q)),
        k < parts.len() ==> render_path(parts.take(k + 1), q) == render_path(parts.take(k), q)
            + render_part(parts[k], k == 0, q),
    decreases parts.len(),
{
    if k < parts.len() {
        assert(parts.take(k + 1).drop_last() =~= parts.take(k));
    }
    if k == parts.len() {
        assert(parts.take(k) =~= parts);
    } else {
        let d = parts.drop_last();
        lemma_render_prefix(d, k, q);
        assert(d.take(k) =~= parts.take(k));
    }
}

proof fn lemma_read_name(
    s: Seq<char>,
    p: int,
    n: Seq<char>,
    cur: Seq<char>,
    acc: Seq<PathPartView>,
    m: int,
)
    requires
        0 <= p,
        0 <= m <= n.len(),
        p + n.len() <= s.len(),
        s.subrange(p, p + n.len()) == n,
        !n.contains('.'),
        !n.contains('['),
    ensures
        parse_path_from(s, p, cur, acc) == parse_path_from(s, p + m, cur + n.take(m), acc),
    decreases m,
{
    if m == 0 {
        assert(cur + n.take(0) =~= cur);
    } else {
        lemma_read_name(s, p, n, cur, acc, m - 1);
        let c = s[p + m - 1];
        assert(c == n[m - 1]);
        if c == '.' {
            assert(n.contains('.'));
        }
        if c == '[' {
            assert(n.contains('['));
        }
        assert((cur + n.take(m - 1)).push(c) =~= cur + n.take(m));
    }
}

proof fn lemma_find_char_at(s: Seq<char>, q: int, c: char, m: int)
    requires
        0 <= q,
        0 <= m,
        q + m < s.len(),
        s[q + m] == c,
        forall|j: int| q <= j < q + m ==> s[j] != c,
    ensures
        find_char(s, q, c) == q + m,
    decreases m,
{
    if m > 0 {
        lemma_find_char_at(s, q + 1, c, m - 1);
    }
}

/// Facts shared by the per-part steps: where the part's text stands in `s`,
/// and what the completed parts are before it.
proof fn lemma_piece_in_path(s: Seq<char>, parts: Seq<PathPartView>, k: int, first: bool, q: char)
    requires
        first == (k == 0),
        0 <= k < parts.len(),
        renderable(parts, q),
        s == render_path(parts, q),
    ensures
        render_path(parts.take(k), q).len() + render_part(parts[k], k == 0, q).len() == render_path(
            parts.take(k + 1),
            q,
        ).len(),
        render_path(parts.take(k + 1), q).len() <= s.len(),
        forall|j: int|
            0 <= j < render_part(parts[k], first, q).len() ==> s[render_path(parts.take(k), q).len()
                + j] == #[trigger] render_part(parts[k], first, q)[j],
        flush_field(completed_parts(parts, k), pending_name(parts, k)) == parts.take(k),
        parts.take(k).push(parts[k]) == parts.take(k + 1),
{
    lemma_render_prefix(parts, k + 1, q);
    lemma_render_prefix(parts, k, q);
    let p = render_path(parts.take(k), q).len() as int;
    let piece = render_part(parts[k], k == 0, q);
    let pre = render_path(parts.take(k + 1), q);
    assert(pre == render_path(parts.take(k), q) + piece);
    assert(s.subrange(0, pre.len() as int) == pre);
    assert forall|j: int| 0 <= j < piece.len() implies s[p + j] == #[trigger] piece[j] by {
        assert(s[p + j] == pre[p + j]);
    }
    let flushed = flush_field(completed_parts(parts, k), pending_name(parts, k));
    assert(flushed =~= parts.take(k)) by {
        if k > 0 && parts[k - 1] is Field {
            assert(renderable(parts, q) ==> parts[k - 1]->Field_0.len() > 0);
            assert(parts.take(k - 1).push(parts[k - 1]) =~= parts.take(k));
        }
    }
    assert(parts.take(k).push(parts[k]) =~= parts.take(k + 1));
}

proof fn lemma_field_step(s: Seq<char>, parts: Seq<PathPartView>, k: int, q: char)
    requires
        0 <= k < parts.len(),
        renderable(parts, q),
        s == render_path(parts, q),
        parts[k] is Field,
    ensures
        parse_path_from(
            s,
            render_path(parts.take(k), q).len() as int,
            pending_name(parts, k),
            completed_parts(parts, k),
        ) == parse_path_from(
            s,
            render_path(parts.take(k + 1), q).len() as int,
            pending_name(parts, k + 1),
            completed_parts(parts, k + 1),
        ),
{
    lemma_piece_in_path(s, parts, k, k == 0, q);
    let p = render_path(parts.take(k), q).len() as int;
    let piece = render_part(parts[k], k == 0, q);
    let n = parts[k]->Field_0;
    let flushed = flush_field(completed_parts(parts, k), pending_name(parts, k));
    assert(n.len() > 0 && !n.contains('.') && !n.contains('['));
    if k == 0 {
        assert forall|x: int| 0 <= x < n.len() implies s.subrange(p, p + n.len())[x] == n[x] by {
            assert(s[p + x] == piece[x]);
        }
        assert(s.subrange(p, p + n.len()) =~= n);
        lemma_read_name(s, p, n, seq![], seq![], n.len() as int);
        assert(Seq::<char>::empty() + n.take(n.len() as int) =~= n);
        assert(completed_parts(parts, 0) =~= Seq::<PathPartView>::empty());
        assert(parts.take(0) =~= Seq::<PathPartView>::empty());
    } else {
        assert(s[p + 0] == piece[0]);
        assert(s[p] == '.');
        assert forall|x: int| 0 <= x < n.len() implies s.subrange(p + 1, p + 1 + n.len())[x]
            == n[x] by {
            assert(s[p + (1 + x)] == piece[1 + x]);
        }
        assert(s.subrange(p + 1, p + 1 + n.len()) =~= n);
        lemma_read_name(s, p + 1, n, seq![], flushed, n.len() as int);
        assert(Seq::<char>::empty() + n.take(n.len() as int) =~= n);
    }
}

proof fn lemma_index_step(s: Seq<char>, parts: Seq<PathPartView>, k: int, q: char)
    requires
        0 <= k < parts.len(),
        renderable(parts, q),
        s == render_path(parts, q),
        parts[k] is Index,
    ensures
        parse_path_from(
            s,
            render_path(parts.take(k), q).len() as int,
            pending_name(parts, k),
            completed_parts(parts, k),
        ) == parse_path_from(
            s,
            render_path(parts.take(k + 1), q).len() as int,
            pending_name(parts, k + 1),
            completed_parts(parts, k + 1),
        ),
{
    lemma_piece_in_path(s, parts, k, k == 0, q);
    let p = render_path(parts.take(k), q).len() as int;
    let piece = render_part(parts[k], k == 0, q);
    let i = parts[k]->Index_0;
    let d = crate::text::nat_decimal(i as nat);
    crate::text::lemma_nat_decimal(i as nat);
    assert(s[p + 0] == piece[0]);
    assert(s[p + 1] == piece[1]);
    assert(s[p] == '[');
    assert(s[p + 1] == d[0]);
    assert(crate::text::is_digit(d[0]));
    assert(s[p + (1 + d.len())] == piece[1 + d.len() as int]);
    assert forall|j: int| p + 1 <= j < p + 1 + d.len() implies s[j] != ']' by {
        assert(s[p + (j - p)] == piece[j - p]);
        assert(s[j] == d[j - p - 1]);
        assert(crate::text::is_digit(d[j - p - 1]));
    }
    lemma_find_char_at(s, p + 1, ']', d.len() as int);
    assert forall|x: int| 0 <= x < d.len() implies s.subrange(p + 1, p + 1 + d.len())[x]
        == d[x] by {
        assert(s[p + (1 + x)] == piece[1 + x]);
    }
    assert(s.subrange(p + 1, p + 1 + d.len()) =~= d);
    assert(d[0] != '+');
    assert(crate::text::parse_unsigned(d, usize::MAX as nat) == Some(i as nat));
}

proof fn lemma_map_key_step(s: Seq<char>, parts: Seq<PathPartView>, k: int, q: char)
    requires
        0 <= k < parts.len(),
        renderable(parts, q),
        s == render_path(parts, q),
        parts[k] is MapKey,
        q == '"' || q == '\'',
    ensures
        parse_path_from(
            s,
            render_path(parts.take(k), q).len() as int,
            pending_name(parts, k),
            completed_parts(parts, k),
        ) == parse_path_from(
            s,
            render_path(parts.take(k + 1), q).len() as int,
            pending_name(parts, k + 1),
            completed_parts(parts, k + 1),
        ),
{
    lemma_piece_in_path(s, parts, k, k == 0, q);
    let p = render_path(parts.take(k), q).len() as int;
    let piece = render_part(parts[k], k == 0, q);
    let key = parts[k]->MapKey_0;
    assert(!key.contains(q));
    assert(s[p + 0] == piece[0]);
    assert(s[p + 1] == piece[1]);
    assert(s[p] == '[');
    assert(s[p + 1] == q);
    assert(s[p + (2 + key.len())] == piece[2 + key.len() as int]);
    assert(s[p + (3 + key.len())] == piece[3 + key.len() as int]);
    assert forall|j: int| p + 2 <= j < p + 2 + key.len() implies s[j] != q by {
        assert(s[p + (j - p)] == piece[j - p]);
        assert(s[j] == key[j - p - 2]);
        if key[j - p - 2] == q {
            assert(key.contains(q));
        }
    }
    lemma_find_char_at(s, p + 2, q, key.len() as int);
    assert forall|x: int| 0 <= x < key.len() implies s.subrange(p + 2, p + 2 + key.len())[x]
        == key[x] by {
        assert(s[p + (2 + x)] == piece[2 + x]);
    }
    assert(s.subrange(p + 2, p + 2 + key.len()) =~= key);
}

proof fn lemma_parse_prefix(parts: Seq<PathPartView>, k: int, q: char)
    requires
        q == '"' || q == '\'',
        0 <= k <= parts.len(),
        renderable(parts, q),
    ensures
        parse_path(render_path(parts, q)) == parse_path_from(
            render_path(parts, q),
            render_path(parts.take(k), q).len() as int,
            pending_name(parts, k),
            completed_parts(parts, k),
        ),
    decreases k,
{
    if k == 0 {
        assert(parts.take(0) =~= Seq::<PathPartView>::empty());
        assert(render_path(parts.take(0), q) =~= Seq::<char>::empty());
        assert(pending_name(parts, 0) =~= Seq::<char>::empty());
        assert(completed_parts(parts, 0) =~= Seq::<PathPartView>::empty());
    } else {
        lemma_parse_prefix(parts, k - 1, q);
        let s = render_path(parts, q);
        match parts[k - 1] {
            PathPartView::Field(_) => lemma_field_step(s, parts, k - 1, q),
            PathPartView::Index(_) => lemma_index_step(s, parts, k - 1, q),
            PathPartView::MapKey(_) => lemma_map_key_step(s, parts, k - 1, q),
        }
    }
}

/// Writing parts as a path and parsing it gives the parts back: for any
/// non-empty parts whose field names are not empty and hold neither `.` nor
/// `[`, and whose map keys hold no quote of the kind used (`"` or `'`),
/// `parse_field_path` of the text `a.b[0]["k"].c` (or `a.b[0]['k'].c`) that
/// writes the parts returns exactly those parts.
pub proof fn law_parse_rendered_path(parts: Seq<PathPartView>, q: char)
    requires
        parts.len() > 0,
        q == '"' || q == '\'',
        renderable(parts, q),
    ensures
        parse_path(render_path(parts, q)) == Ok::<Seq<PathPartView>, PathSyntaxError>(parts),
{
    let s = render_path(parts, q);
    let n = parts.len() as int;
    lemma_parse_prefix(parts, n, q);
    assert(parts.take(n) =~= parts);
    let done = flush_field(completed_parts(parts, n), pending_name(parts, n));
    assert(done =~= parts) by {
        if parts[n - 1] is Field {
            assert(parts[n - 1]->Field_0.len() > 0);
            assert(parts.take(n - 1).push(parts[n - 1]) =~= parts);
        }
    }
}

/// The characters of `s` from position `i` on are all dots.
pub open spec fn dots_from(s: Seq<char>, i: int) -> bool {
    forall|k: int| i <= k < s.len() ==> #[trigger] s[k] == '.'
}

proof fn lemma_empty_only_from_dots(
    s: Seq<char>,
    i: int,
    cur: Seq<char>,
    parts: Seq<PathPartView>,
)
    requires
        0 <= i,
    ensures
        parse_path_from(s, i, cur, parts) == Err::<Seq<PathPartView>, PathSyntaxError>(
            PathSyntaxError::Empty,
        ) <==> (parts.len() == 0 && cur.len() == 0 && dots_from(s, i)),
    decreases s.len() - i,
{
    if i >= s.len() {
    } else if s[i] == '.' {
        lemma_empty_only_from_dots(s, i + 1, seq![], flush_field(parts, cur));
        if dots_from(s, i + 1) {
            assert(dots_from(s, i));
        }
    } else if s[i] == '[' {
        let before = flush_field(parts, cur);
        if i + 1 < s.len() && (s[i + 1] == '\'' || s[i + 1] == '"') {
            let close = find_char(s, i + 2, s[i + 1]);
            lemma_find_char_bounds(s, i + 2, s[i + 1]);
            if close + 1 < s.len() && s[close + 1] == ']' {
                lemma_empty_only_from_dots(
                    s,
                    close + 2,
                    seq![],
                    before.push(PathPartView::MapKey(s.subrange(i + 2, close))),
                );
            }
        } else {
            let close = find_char(s, i + 1, ']');
            lemma_find_char_bounds(s, i + 1, ']');
            let next = if close < s.len() {
                close + 1
            } else {
                s.len() as int
            };
            lemma_empty_only_from_dots(
                s,
                next,
                seq![],
                before.push(bracket_part(s.subrange(i + 1, close))),
            );
        }
        assert(!dots_from(s, i));
    } else {
        lemma_empty_only_from_dots(s, i + 1, cur.push(s[i]), parts);
        assert(!dots_from(s, i));
    }
}

/// The empty-path error comes exactly for a text made only of dots (the
/// empty text included): any other text gives at least one part, or
/// another error.
pub proof fn law_empty_path_is_only_dots(s: Seq<char>)
    ensures
        parse_path(s) == Err::<Seq<PathPartView>, PathSyntaxError>(PathSyntaxError::Empty)
            <==> dots_from(s, 0),
{
    lemma_empty_only_from_dots(s, 0, seq![], seq![]);
}

/// A field name that a path can hold: not empty, with neither `.` nor `[`.
pub open spec fn good_field_name(n: Seq<char>) -> bool {
    n.len() > 0 && !n.contains('.') && !n.contains('[')
}

/// Every field part of `parts` has a name that a path can hold.
pub open spec fn fields_good(parts: Seq<PathPartView>) -> bool {
    forall|k: int|
        0 <= k < parts.len() ==> (#[trigger] parts[k] matches PathPartView::Field(n)
            ==> good_field_name(n))
}

proof fn lemma_parsed_fields_good(
    s: Seq<char>,
    i: int,
    cur: Seq<char>,
    parts: Seq<PathPartView>,
)
    requires
        0 <= i,
        fields_good(parts),
        !cur.contains('.'),
        !cur.contains('['),
    ensures
        parse_path_from(s, i, cur, parts) matches Ok(p) ==> p.len() > 0 && fields_good(p),
    decreases s.len() - i,
{
    let flushed = flush_field(parts, cur);
    assert(fields_good(flushed)) by {
        if cur.len() > 0 {
            assert forall|k: int| 0 <= k < flushed.len() implies (#[trigger] flushed[k] matches PathPartView::Field(n)
                ==> good_field_name(n)) by {
                if k < parts.len() {
                    assert(flushed[k] == parts[k]);
                }
            }
        }
    }
    if i >= s.len() {
    } else if s[i] == '.' {
        lemma_parsed_fields_good(s, i + 1, seq![], flushed);
    } else if s[i] == '[' {
        if i + 1 < s.len() && (s[i + 1] == '\'' || s[i + 1] == '"') {
            let close = find_char(s, i + 2, s[i + 1]);
            lemma_find_char_bounds(s, i + 2, s[i + 1]);
            if close + 1 < s.len() && s[close + 1] == ']' {
                let next = flushed.push(PathPartView::MapKey(s.subrange(i + 2, close)));
                assert forall|k: int| 0 <= k < next.len() implies (#[trigger] next[k] matches PathPartView::Field(n)
                    ==> good_field_name(n)) by {
                    if k < flushed.len() {
                        assert(next[k] == flushed[k]);
                    }
                }
                lemma_parsed_fields_good(s, close + 2, seq![], next);
            }
        } else {
            let close = find_char(s, i + 1, ']');
            lemma_find_char_bounds(s, i + 1, ']');
            let nx = if close < s.len() {
                close + 1
            } else {
                s.len() as int
            };
            let body = s.subrange(i + 1, close);
            let next = flushed.push(bracket_part(body));
            assert(!(bracket_part(body) is Field));
            assert forall|k: int| 0 <= k < next.len() implies (#[trigger] next[k] matches PathPartView::Field(n)
                ==> good_field_name(n)) by {
                if k < flushed.len() {
                    assert(next[k] == flushed[k]);
                }
            }
            lemma_parsed_fields_good(s, nx, seq![], next);
        }
    } else {
        let c2 = cur.push(s[i]);
        assert(!c2.contains('.')) by {
            if c2.contains('.') {
                let k = choose|k: int| 0 <= k < c2.len() && c2[k] == '.';
                if k < cur.len() {
                    assert(cur[k] == '.');
                }
            }
        }
        assert(!c2.contains('[')) by {
            if c2.contains('[') {
                let k = choose|k: int| 0 <= k < c2.len() && c2[k] == '[';
                if k < cur.len() {
                    assert(cur[k] == '[');
                }
            }
        }
        lemma_parsed_fields_good(s, i + 1, c2, parts);
    }
}

/// The shape of a parsed path: a text that parses gives at least one part,
/// and every field part has a name that is not empty and holds neither `.`
/// nor `[`. (What does not parse is refused with `InvalidFieldPath`, see
/// [`path_syntax_error_view`].)
pub proof fn law_parsed_path_shape(s: Seq<char>)
    ensures
        parse_path(s) matches Ok(p) ==> p.len() > 0 && fields_good(p),
        parse_path(s) matches Err(e) ==> path_syntax_error_view(e) is InvalidFieldPath,
{
    lemma_parsed_fields_good(s, 0, seq![], seq![]);
}

} // verus!
