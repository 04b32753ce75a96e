//! Wavefront OBJ parsing: the line grammar, face records and the vertex
//! de-duplication that turns faces into an indexed triangle list.
//!
//! Positions, normals and texture coordinates are real numbers; the parser
//! hands their text back to the caller together with the line they came
//! from, and everything else (keywords, groups, faces, indices) is decided
//! here.

use vstd::prelude::*;
use crate::error::LoadError;
use crate::text::{
    decimal, parse_i32_range, parse_i32_spec, parse_u32_range, parse_u32_spec, push_chars,
    push_decimal, split_whitespace, to_chars, tokens, views, trim, trim_range, copy_range,
    word_end, word_end_exec, lemma_word_end_bounds,
};

verus! {

broadcast use vstd::std_specs::hash::group_hash_axioms;

/// One corner of a face: position, texture-coordinate and normal indices.
///
/// `pos` is zero-based; `uv` and `nor` keep the file's one-based numbering,
/// with `0` meaning "absent".
#[derive(Copy, Clone, Debug, PartialEq, Eq, Hash, Structural)]
pub struct FaceVertex {
    pub pos: u32,
    pub uv: u32,
    pub nor: u32,
}

// ── Messages ────────────────────────────────────────────────────────────────

/// `"line <n+1>"` followed by `tail`.
pub open spec fn line_message(line_no: nat, tail: Seq<char>) -> Seq<char> {
    "line "@ + decimal(line_no + 1) + tail
}

pub open spec fn bad_token_message(tok: Seq<char>, line_no: nat) -> Seq<char> {
    line_message(line_no, ": bad face token '"@ + tok + "'"@)
}

pub open spec fn non_positive_message(line_no: nat) -> Seq<char> {
    line_message(line_no, ": non-positive index"@)
}

pub open spec fn short_face_message(line_no: nat) -> Seq<char> {
    line_message(line_no, ": face needs \u{2265}3 vertices"@)
}

/// `r` is the OBJ outcome described by `s`: the same value, or an
/// `LoadError::Obj` carrying the described message.
pub open spec fn obj_outcome<T>(r: Result<T, LoadError>, s: Result<T, Seq<char>>) -> bool {
    match (r, s) {
        (Ok(a), Ok(b)) => a == b,
        (Err(LoadError::Obj(m)), Err(t)) => m@ == t,
        _ => false,
    }
}

/// Builds `"line <n+1>" + tail`.
fn line_error(line_no: usize, tail: &str) -> (r: LoadError)
    ensures
        r matches LoadError::Obj(m) && m@ == line_message(line_no as nat, tail@),
{
    let mut m = String::from_str("line ");
    push_decimal(&mut m, line_no as u128 + 1);
    m.append(tail);
    LoadError::Obj(m)
}

// ── Face corners ────────────────────────────────────────────────────────────

/// First `/` at or after `i` (or the end of `s`).
pub open spec fn next_slash(s: Seq<char>, i: int) -> int
    decreases s.len() - i,
{
    if 0 <= i < s.len() && s[i] != '/' {
        next_slash(s, i + 1)
    } else {
        i
    }
}

pub proof fn lemma_next_slash_bounds(s: Seq<char>, i: int)
    requires
        0 <= i <= s.len(),
    ensures
        i <= next_slash(s, i) <= s.len(),
        next_slash(s, i) < s.len() ==> s[next_slash(s, i)] == '/',
    decreases s.len() - i,
{
    if i < s.len() && s[i] != '/' {
        lemma_next_slash_bounds(s, i + 1);
    }
}

/// The `k`-th `/`-separated field of `s[i..]`, if there are that many.
pub open spec fn field(s: Seq<char>, i: int, k: nat) -> Option<Seq<char>>
    decreases k,
{
    let e = next_slash(s, i);
    if k == 0 {
        Some(s.subrange(i, e))
    } else if e >= s.len() {
        None
    } else {
        field(s, e + 1, (k - 1) as nat)
    }
}

/// The `k`-th `/`-separated field of `s`, or nothing when `s` has fewer.
pub open spec fn field_or_empty(s: Seq<char>, k: nat) -> Seq<char> {
    match field(s, 0, k) {
        Some(f) => f,
        None => seq![],
    }
}

/// An optional one-based index: absent when the field is empty.
pub open spec fn optional_index(f: Seq<char>) -> Option<u32> {
    if f.len() == 0 {
        Some(0u32)
    } else {
        parse_u32_spec(f)
    }
}

/// Meaning of a face token `pos[/uv[/nor]]` found on line `line_no`.
pub open spec fn face_vertex_spec(tok: Seq<char>, line_no: nat) -> Result<FaceVertex, Seq<char>> {
    match parse_i32_spec(field_or_empty(tok, 0)) {
        None => Err(bad_token_message(tok, line_no)),
        Some(pos) => {
            let uv = optional_index(field_or_empty(tok, 1));
            let nor = optional_index(field_or_empty(tok, 2));
            if uv is None || nor is None {
                Err(bad_token_message(tok, line_no))
            } else if pos <= 0 {
                Err(non_positive_message(line_no))
            } else {
                Ok(FaceVertex { pos: (pos - 1) as u32, uv: uv->0, nor: nor->0 })
            }
        },
    }
}

/// Position of the first `/` at or after `i` in `tok` (or its length).
fn next_slash_exec(tok: &Vec<char>, i: usize) -> (e: usize)
    requires
        i <= tok@.len(),
    ensures
        e as int == next_slash(tok@, i as int),
        i <= e <= tok@.len(),
        e < tok@.len() ==> tok@[e as int] == '/',
{
    proof {
        lemma_next_slash_bounds(tok@, i as int);
    }
    let mut e = i;
    while e < tok.len() && tok[e] != '/'
        invariant
            i <= e <= tok@.len(),
            next_slash(tok@, e as int) == next_slash(tok@, i as int),
        decreases tok@.len() - e,
    {
        e = e + 1;
    }
    e
}

/// Bounds of the first three `/`-separated fields of `tok`; an absent field
/// is given as the empty range `(0, 0)`.
fn field_bounds(tok: &Vec<char>) -> (r: ((usize, usize), (usize, usize), (usize, usize)))
    ensures
        r.0.0 <= r.0.1 <= tok@.len(),
        r.1.0 <= r.1.1 <= tok@.len(),
        r.2.0 <= r.2.1 <= tok@.len(),
        tok@.subrange(r.0.0 as int, r.0.1 as int) == field_or_empty(tok@, 0),
        tok@.subrange(r.1.0 as int, r.1.1 as int) == field_or_empty(tok@, 1),
        tok@.subrange(r.2.0 as int, r.2.1 as int) == field_or_empty(tok@, 2),
{
    let ghost s = tok@;
    let n = tok.len();
    let e0 = next_slash_exec(tok, 0);
    assert(field(s, 0, 0) == Some(s.subrange(0, e0 as int)));
    if e0 >= n {
        assert(field(s, 0, 1) is None);
        assert(field(s, 0, 2) is None);
        assert(s.subrange(0, 0) =~= Seq::<char>::empty());
        return ((0, e0), (0, 0), (0, 0));
    }
    let e1 = next_slash_exec(tok, e0 + 1);
    assert(field(s, 0, 1) == field(s, e0 + 1, 0));
    assert(field(s, 0, 2) == field(s, e0 + 1, 1));
    if e1 >= n {
        assert(field(s, e0 + 1, 1) is None);
        assert(s.subrange(0, 0) =~= Seq::<char>::empty());
        return ((0, e0), (e0 + 1, e1), (0, 0));
    }
    let e2 = next_slash_exec(tok, e1 + 1);
    assert(field(s, e0 + 1, 1) == field(s, e1 + 1, 0));
    ((0, e0), (e0 + 1, e1), (e1 + 1, e2))
}

/// Parses one face corner `pos[/uv[/nor]]` given as characters.
pub fn parse_face_vertex_chars(tok: &Vec<char>, line_no: usize) -> (r: Result<FaceVertex, LoadError>)
    ensures
        obj_outcome(r, face_vertex_spec(tok@, line_no as nat)),
{
    let (f0, f1, f2) = field_bounds(tok);
    let pos = match parse_i32_range(tok, f0.0, f0.1) {
        Some(p) => p,
        None => {
            return Err(bad_token_error(tok, line_no));
        },
    };
    let uv: u32 = if f1.0 == f1.1 {
        0
    } else {
        match parse_u32_range(tok, f1.0, f1.1) {
            Some(v) => v,
            None => {
                return Err(bad_token_error(tok, line_no));
            },
        }
    };
    let nor: u32 = if f2.0 == f2.1 {
        0
    } else {
        match parse_u32_range(tok, f2.0, f2.1) {
            Some(v) => v,
            None => {
                return Err(bad_token_error(tok, line_no));
            },
        }
    };
    if pos <= 0 {
        return Err(line_error(line_no, ": non-positive index"));
    }
    Ok(FaceVertex { pos: (pos - 1) as u32, uv, nor })
}

/// The "bad face token" error for `tok` on line `line_no`.
fn bad_token_error(tok: &Vec<char>, line_no: usize) -> (r: LoadError)
    ensures
        r matches LoadError::Obj(m) && m@ == bad_token_message(tok@, line_no as nat),
{
    let mut m = String::from_str("line ");
    push_decimal(&mut m, line_no as u128 + 1);
    m.append(": bad face token '");
    push_chars(&mut m, tok);
    m.append("'");
    assert(m@ =~= bad_token_message(tok@, line_no as nat));
    LoadError::Obj(m)
}

/// Parses one face corner `pos[/uv[/nor]]` from line `line_no` (zero-based).
pub fn parse_face_vertex(tok: &str, line_no: usize) -> (r: Result<FaceVertex, LoadError>)
    ensures
        obj_outcome(r, face_vertex_spec(tok@, line_no as nat)),
{
    let cs = to_chars(tok);
    parse_face_vertex_chars(&cs, line_no)
}

// ── Faces ───────────────────────────────────────────────────────────────────

/// The corners named by the tokens `toks[..n]`, or the first error among them.
pub open spec fn corners_spec(toks: Seq<Seq<char>>, line_no: nat, n: nat) -> Result<
    Seq<FaceVertex>,
    Seq<char>,
>
    decreases n,
{
    if n == 0 {
        Ok(seq![])
    } else {
        match corners_spec(toks, line_no, (n - 1) as nat) {
            Err(e) => Err(e),
            Ok(cs) => match face_vertex_spec(toks[n - 1], line_no) {
                Err(e) => Err(e),
                Ok(v) => Ok(cs.push(v)),
            },
        }
    }
}

/// Once a corner fails, every longer prefix fails with the same error.
proof fn lemma_corners_error_persists(toks: Seq<Seq<char>>, line_no: nat, k: nat, n: nat)
    requires
        k <= n,
        corners_spec(toks, line_no, k) is Err,
    ensures
        corners_spec(toks, line_no, n) == corners_spec(toks, line_no, k),
    decreases n - k,
{
    if k < n {
        lemma_corners_error_persists(toks, line_no, k, (n - 1) as nat);
    }
}

/// Fan triangulation of a polygon: triangle `i` is `(c0, c[i+1], c[i+2])`.
pub open spec fn fan(cs: Seq<FaceVertex>) -> Seq<[FaceVertex; 3]> {
    Seq::new((cs.len() - 2) as nat, |i: int| [cs[0], cs[i + 1], cs[i + 2]])
}

/// Meaning of the text after the `f` keyword on line `line_no`.
pub open spec fn face_spec(rest: Seq<char>, line_no: nat) -> Result<Seq<[FaceVertex; 3]>, Seq<char>> {
    let toks = tokens(rest);
    match corners_spec(toks, line_no, toks.len()) {
        Err(e) => Err(e),
        Ok(cs) => if cs.len() < 3 {
            Err(short_face_message(line_no))
        } else {
            Ok(fan(cs))
        },
    }
}

/// Parses the corners of a face (the text after `f`) and fan-triangulates it.
pub fn parse_face_chars(rest: &Vec<char>, line_no: usize) -> (r: Result<Vec<[FaceVertex; 3]>, LoadError>)
    ensures
        obj_outcome(
            match r {
                Ok(v) => Ok(v@),
                Err(e) => Err(e),
            },
            face_spec(rest@, line_no as nat),
        ),
{
    let toks = split_whitespace(rest);
    let ghost ts = tokens(rest@);
    let mut corners: Vec<FaceVertex> = Vec::new();
    let mut k: usize = 0;
    while k < toks.len()
        invariant
            k <= toks@.len(),
            views(toks@) == ts,
            ts == tokens(rest@),
            corners_spec(ts, line_no as nat, k as nat) == Ok::<Seq<FaceVertex>, Seq<char>>(corners@),
        decreases toks@.len() - k,
    {
        assert(views(toks@)[k as int] == toks@[k as int]@);
        match parse_face_vertex_chars(&toks[k], line_no) {
            Ok(v) => {
                corners.push(v);
            },
            Err(e) => {
                proof {
                    let fv = face_vertex_spec(ts[k as int], line_no as nat);
                    assert(fv is Err);
                    assert(corners_spec(ts, line_no as nat, (k + 1) as nat) == Err::<Seq<FaceVertex>, Seq<char>>(fv->Err_0));
                    lemma_corners_error_persists(ts, line_no as nat, (k + 1) as nat, ts.len());
                }
                return Err(e);
            },
        }
        k = k + 1;
    }
    if corners.len() < 3 {
        return Err(line_error(line_no, ": face needs \u{2265}3 vertices"));
    }
    let mut tris: Vec<[FaceVertex; 3]> = Vec::new();
    let mut i: usize = 1;
    while i < corners.len() - 1
        invariant
            1 <= i < corners@.len(),
            corners@.len() >= 3,
            tris@ == fan(corners@).take((i - 1) as int),
        decreases corners@.len() - i,
    {
        tris.push([corners[0], corners[i], corners[i + 1]]);
        i = i + 1;
        assert(tris@ =~= fan(corners@).take((i - 1) as int));
    }
    assert(tris@ =~= fan(corners@));
    Ok(tris)
}

/// Parses the corners of a face (the text after `f` on line `line_no`,
/// zero-based) and fan-triangulates it: quads and n-gons become triangles
/// `(c0, c[i+1], c[i+2])`.
pub fn parse_face(rest: &str, line_no: usize) -> (r: Result<Vec<[FaceVertex; 3]>, LoadError>)
    ensures
        obj_outcome(
            match r {
                Ok(v) => Ok(v@),
                Err(e) => Err(e),
            },
            face_spec(rest@, line_no as nat),
        ),
{
    let cs = to_chars(rest);
    parse_face_chars(&cs, line_no)
}

// ── Lines ───────────────────────────────────────────────────────────────────

/// First `'\n'` at or after `i` (or the end of `s`).
pub open spec fn next_newline(s: Seq<char>, i: int) -> int
    decreases s.len() - i,
{
    if 0 <= i < s.len() && s[i] != '\n' {
        next_newline(s, i + 1)
    } else {
        i
    }
}

pub proof fn lemma_next_newline_bounds(s: Seq<char>, i: int)
    requires
        0 <= i <= s.len(),
    ensures
        i <= next_newline(s, i) <= s.len(),
    decreases s.len() - i,
{
    if i < s.len() && s[i] != '\n' {
        lemma_next_newline_bounds(s, i + 1);
    }
}

/// The lines of `s[i..]`: the pieces between `'\n'` characters, where a final
/// `'\n'` does not start another line (as `str::lines` splits; the `'\r'` of a
/// `"\r\n"` ending stays in the line, and every line is trimmed before use).
pub open spec fn lines_from(s: Seq<char>, i: int) -> Seq<Seq<char>>
    decreases s.len() + 1 - i,
{
    if i < 0 || i >= s.len() {
        seq![]
    } else {
        let e = next_newline(s, i);
        proof {
            lemma_next_newline_bounds(s, i);
        }
        seq![s.subrange(i, e)] + lines_from(s, e + 1)
    }
}

/// The lines of `s`.
pub open spec fn lines(s: Seq<char>) -> Seq<Seq<char>> {
    lines_from(s, 0)
}

proof fn lemma_lines_from_len(s: Seq<char>, i: int)
    requires
        0 <= i <= s.len(),
    ensures
        lines_from(s, i).len() <= s.len() - i,
    decreases s.len() + 1 - i,
{
    if i < s.len() {
        lemma_next_newline_bounds(s, i);
        let e = next_newline(s, i);
        if e + 1 <= s.len() {
            lemma_lines_from_len(s, e + 1);
        }
    }
}

/// Splits `cs` into its lines.
fn split_lines(cs: &Vec<char>) -> (r: Vec<Vec<char>>)
    ensures
        views(r@) == lines(cs@),
        r@.len() <= cs@.len(),
{
    proof {
        lemma_lines_from_len(cs@, 0);
    }
    let n = cs.len();
    let mut out: Vec<Vec<char>> = Vec::new();
    let mut i: usize = 0;
    while i < n
        invariant
            n == cs@.len(),
            i <= n,
            views(out@) + lines_from(cs@, i as int) == lines(cs@),
        decreases n - i,
    {
        let mut e = i;
        while e < n && cs[e] != '\n'
            invariant
                i <= e <= n,
                n == cs@.len(),
                next_newline(cs@, e as int) == next_newline(cs@, i as int),
            decreases n - e,
        {
            e = e + 1;
        }
        let line = copy_range(cs, i, e);
        let ghost before = out@;
        out.push(line);
        proof {
            assert(views(out@) =~= views(before).push(line@));
            assert(views(out@) + lines_from(cs@, e + 1) =~= views(before) + (seq![
                cs@.subrange(i as int, e as int),
            ] + lines_from(cs@, e + 1)));
        }
        if e >= n {
            i = n;
        } else {
            i = e + 1;
        }
    }
    assert(views(out@) =~= views(out@) + lines_from(cs@, i as int));
    out
}

// ── Line items ──────────────────────────────────────────────────────────────

/// Kind of a vertex-attribute line: `v`, `vn` or `vt`.
#[derive(Copy, Clone, Debug, PartialEq, Eq, Structural)]
pub enum AttributeKind {
    Position,
    Normal,
    TexCoord,
}

/// Meaning of one line.
pub enum LineItem {
    /// Blank, comment, or a keyword this loader does not use.
    Skip,
    /// A vertex attribute, with the text of its components.
    Attribute(AttributeKind, Seq<char>),
    /// A face, already triangulated.
    Face(Seq<[FaceVertex; 3]>),
    /// An `o` or `g` line starting a new object, with its name.
    Group(Seq<char>),
}

/// The keywords this loader reads.
#[derive(Copy, Clone, PartialEq, Eq, Structural)]
pub enum Keyword {
    V,
    Vn,
    Vt,
    F,
    O,
    G,
    Other,
}

/// Which keyword the word `kw` is.
pub open spec fn keyword_of(kw: Seq<char>) -> Keyword {
    if kw == seq!['v'] {
        Keyword::V
    } else if kw == seq!['v', 'n'] {
        Keyword::Vn
    } else if kw == seq!['v', 't'] {
        Keyword::Vt
    } else if kw == seq!['f'] {
        Keyword::F
    } else if kw == seq!['o'] {
        Keyword::O
    } else if kw == seq!['g'] {
        Keyword::G
    } else {
        Keyword::Other
    }
}

/// The keyword spelled by `t[..k]`.
fn keyword_exec(t: &Vec<char>, k: usize) -> (r: Keyword)
    requires
        k <= t@.len(),
    ensures
        r == keyword_of(t@.subrange(0, k as int)),
{
    let ghost kw = t@.subrange(0, k as int);
    if k == 1 {
        let c = t[0];
        assert(kw =~= seq![c]);
        if c == 'v' {
            Keyword::V
        } else if c == 'f' {
            Keyword::F
        } else if c == 'o' {
            Keyword::O
        } else if c == 'g' {
            Keyword::G
        } else {
            assert(kw != seq!['v'] && kw != seq!['f'] && kw != seq!['o'] && kw != seq!['g']) by {
                assert(seq!['v'][0] == 'v' && seq!['f'][0] == 'f');
                assert(seq!['o'][0] == 'o' && seq!['g'][0] == 'g');
            }
            Keyword::Other
        }
    } else if k == 2 && t[0] == 'v' && (t[1] == 'n' || t[1] == 't') {
        assert(kw =~= seq!['v', t@[1]]);
        assert(kw != seq!['v']);
        if t[1] == 'n' {
            Keyword::Vn
        } else {
            assert(kw != seq!['v', 'n']) by {
                assert(seq!['v', 'n'][1] == 'n');
            }
            Keyword::Vt
        }
    } else {
        proof {
            if k == 2 {
                assert(kw[0] == t@[0] && kw[1] == t@[1]);
                assert(seq!['v', 'n'][0] == 'v' && seq!['v', 'n'][1] == 'n');
                assert(seq!['v', 't'][0] == 'v' && seq!['v', 't'][1] == 't');
            }
            assert(seq!['v'].len() == 1 && seq!['f'].len() == 1 && seq!['o'].len() == 1 && seq![
                'g',
            ].len() == 1);
            assert(seq!['v', 'n'].len() == 2 && seq!['v', 't'].len() == 2);
        }
        Keyword::Other
    }
}

/// Meaning of line `line_no` (zero-based) whose text is `raw`.
pub open spec fn line_spec(raw: Seq<char>, line_no: nat) -> Result<LineItem, Seq<char>> {
    let t = trim(raw);
    if t.len() == 0 || t[0] == '#' {
        Ok(LineItem::Skip)
    } else {
        let k = word_end(t, 0);
        let rest = if k < t.len() {
            trim(t.subrange(k + 1, t.len() as int))
        } else {
            seq![]
        };
        match keyword_of(t.subrange(0, k)) {
            Keyword::V => Ok(LineItem::Attribute(AttributeKind::Position, rest)),
            Keyword::Vn => Ok(LineItem::Attribute(AttributeKind::Normal, rest)),
            Keyword::Vt => Ok(LineItem::Attribute(AttributeKind::TexCoord, rest)),
            Keyword::F => match face_spec(rest, line_no) {
                Ok(tris) => Ok(LineItem::Face(tris)),
                Err(e) => Err(e),
            },
            Keyword::O | Keyword::G => Ok(LineItem::Group(rest)),
            Keyword::Other => Ok(LineItem::Skip),
        }
    }
}

/// Executable counterpart of [`LineItem`].
enum ObjLine {
    Skip,
    Attribute(AttributeKind, Vec<char>),
    Face(Vec<[FaceVertex; 3]>),
    Group(Vec<char>),
}

impl ObjLine {
    spec fn item(self) -> LineItem {
        match self {
            ObjLine::Skip => LineItem::Skip,
            ObjLine::Attribute(k, t) => LineItem::Attribute(k, t@),
            ObjLine::Face(f) => LineItem::Face(f@),
            ObjLine::Group(n) => LineItem::Group(n@),
        }
    }
}

/// Reads one line.
fn parse_line(raw: &Vec<char>, line_no: usize) -> (r: Result<ObjLine, LoadError>)
    ensures
        obj_outcome(
            match r {
                Ok(l) => Ok(l.item()),
                Err(e) => Err(e),
            },
            line_spec(raw@, line_no as nat),
        ),
{
    let (a, b) = trim_range(raw, 0, raw.len());
    assert(raw@.subrange(0, raw@.len() as int) =~= raw@);
    let t = copy_range(raw, a, b);
    assert(t@ == trim(raw@));
    if t.len() == 0 || t[0] == '#' {
        assert(line_spec(raw@, line_no as nat) == Ok::<LineItem, Seq<char>>(LineItem::Skip));
        return Ok(ObjLine::Skip);
    }
    let k = word_end_exec(&t, 0);
    proof {
        lemma_word_end_bounds(t@, 0);
    }
    let rest: Vec<char> = if k < t.len() {
        let (ra, rb) = trim_range(&t, k + 1, t.len());
        copy_range(&t, ra, rb)
    } else {
        Vec::new()
    };
    match keyword_exec(&t, k) {
        Keyword::V => Ok(ObjLine::Attribute(AttributeKind::Position, rest)),
        Keyword::Vn => Ok(ObjLine::Attribute(AttributeKind::Normal, rest)),
        Keyword::Vt => Ok(ObjLine::Attribute(AttributeKind::TexCoord, rest)),
        Keyword::F => match parse_face_chars(&rest, line_no) {
            Ok(tris) => Ok(ObjLine::Face(tris)),
            Err(e) => Err(e),
        },
        Keyword::O | Keyword::G => Ok(ObjLine::Group(rest)),
        Keyword::Other => Ok(ObjLine::Skip),
    }
}

// ── Scanning a whole file ───────────────────────────────────────────────────

/// A `v`, `vn` or `vt` line: its components are left as text for the caller,
/// which reads them as real numbers.
#[derive(Debug)]
pub struct AttributeLine {
    pub kind: AttributeKind,
    /// Zero-based line number, for error messages.
    pub line_no: usize,
    /// The text after the keyword, trimmed.
    pub text: String,
}

/// Abstract content of an [`AttributeLine`].
pub struct AttributeView {
    pub kind: AttributeKind,
    pub line_no: nat,
    pub text: Seq<char>,
}

impl View for AttributeLine {
    type V = AttributeView;

    open spec fn view(&self) -> AttributeView {
        AttributeView { kind: self.kind, line_no: self.line_no as nat, text: self.text@ }
    }
}

/// The triangles of one object or group.
#[derive(Debug)]
pub struct SubMesh {
    pub name: String,
    pub faces: Vec<[FaceVertex; 3]>,
}

/// Abstract content of a [`SubMesh`].
pub struct SubMeshView {
    pub name: Seq<char>,
    pub faces: Seq<[FaceVertex; 3]>,
}

impl View for SubMesh {
    type V = SubMeshView;

    open spec fn view(&self) -> SubMeshView {
        SubMeshView { name: self.name@, faces: self.faces@ }
    }
}

/// Result of reading an OBJ file's text.
///
/// `attributes` holds the attribute lines in file order up to the first line
/// that fails to parse; `meshes` holds the objects with geometry, or the
/// first error.  A caller that reads the attribute components first and
/// then looks at `meshes` reports the earliest error of the file.
#[derive(Debug)]
pub struct ObjScan {
    pub attributes: Vec<AttributeLine>,
    pub meshes: Result<Vec<SubMesh>, LoadError>,
}

/// State of the reader after a number of lines.
pub struct ScanState {
    pub attributes: Seq<AttributeView>,
    pub meshes: Seq<SubMeshView>,
    pub current: SubMeshView,
    pub error: Option<Seq<char>>,
}

/// Effect of one line item on the reader state.
pub open spec fn apply_item(st: ScanState, item: LineItem, line_no: nat) -> ScanState {
    match item {
        LineItem::Skip => st,
        LineItem::Attribute(kind, text) => ScanState {
            attributes: st.attributes.push(AttributeView { kind, line_no, text }),
            ..st
        },
        LineItem::Face(tris) => ScanState {
            current: SubMeshView { name: st.current.name, faces: st.current.faces + tris },
            ..st
        },
        LineItem::Group(name) => ScanState {
            meshes: if st.current.faces.len() > 0 {
                st.meshes.push(st.current)
            } else {
                st.meshes
            },
            current: SubMeshView { name, faces: seq![] },
            ..st
        },
    }
}

/// Reader state after the first `n` of `ls`; it stops at the first error.
pub open spec fn scan_fold(ls: Seq<Seq<char>>, n: nat) -> ScanState
    decreases n,
{
    if n == 0 {
        ScanState {
            attributes: seq![],
            meshes: seq![],
            current: SubMeshView { name: "default"@, faces: seq![] },
            error: None,
        }
    } else {
        let st = scan_fold(ls, (n - 1) as nat);
        if st.error is Some {
            st
        } else {
            match line_spec(ls[n - 1], (n - 1) as nat) {
                Err(e) => ScanState { error: Some(e), ..st },
                Ok(item) => apply_item(st, item, (n - 1) as nat),
            }
        }
    }
}

/// The objects with geometry once every line has been read.
pub open spec fn finished_meshes(st: ScanState) -> Seq<SubMeshView> {
    if st.current.faces.len() > 0 {
        st.meshes.push(st.current)
    } else {
        st.meshes
    }
}

/// Reader state after every line of `source`.
pub open spec fn scan_state(source: Seq<char>) -> ScanState {
    scan_fold(lines(source), lines(source).len())
}

/// The objects of `source`, or the error it is rejected with.
pub open spec fn scan_meshes(source: Seq<char>) -> Result<Seq<SubMeshView>, Seq<char>> {
    let st = scan_state(source);
    match st.error {
        Some(e) => Err(e),
        None => if finished_meshes(st).len() == 0 {
            Err("file contains no geometry"@)
        } else {
            Ok(finished_meshes(st))
        },
    }
}

proof fn lemma_scan_error_persists(ls: Seq<Seq<char>>, k: nat, n: nat)
    requires
        k <= n,
        scan_fold(ls, k).error is Some,
    ensures
        scan_fold(ls, n) == scan_fold(ls, k),
    decreases n - k,
{
    if k < n {
        lemma_scan_error_persists(ls, k, (n - 1) as nat);
    }
}

/// The views of a sequence of attribute lines.
pub open spec fn attribute_views(v: Seq<AttributeLine>) -> Seq<AttributeView> {
    v.map_values(|a: AttributeLine| a@)
}

/// The views of a sequence of sub-meshes.
pub open spec fn mesh_views(v: Seq<SubMesh>) -> Seq<SubMeshView> {
    v.map_values(|m: SubMesh| m@)
}

/// A string holding the characters of `cs`.
fn string_of(cs: &Vec<char>) -> (r: String)
    ensures
        r@ == cs@,
{
    let mut out = String::new();
    push_chars(&mut out, cs);
    out
}

/// Reads the text of an OBJ file: comments and blank lines are skipped,
/// `v`/`vn`/`vt` lines are collected, `f` lines are triangulated, `o`/`g`
/// lines start a new object, and anything else (`mtllib`, `usemtl`, ...)
/// is ignored.
pub fn scan_obj(source: &str) -> (r: ObjScan)
    ensures
        attribute_views(r.attributes@) == scan_state(source@).attributes,
        obj_outcome(
            match r.meshes {
                Ok(ms) => Ok(mesh_views(ms@)),
                Err(e) => Err(e),
            },
            scan_meshes(source@),
        ),
{
    let cs = to_chars(source);
    let ls = split_lines(&cs);
    let ghost lsv = views(ls@);
    let n = ls.len();
    let mut attributes: Vec<AttributeLine> = Vec::new();
    let mut meshes: Vec<SubMesh> = Vec::new();
    let mut cur_name = String::from_str("default");
    let mut cur_faces: Vec<[FaceVertex; 3]> = Vec::new();
    let mut k: usize = 0;
    while k < n
        invariant
            n == ls@.len(),
            n <= cs@.len(),
            cs@ == source@,
            lsv == views(ls@),
            lsv == lines(source@),
            k <= n,
            ({
                let st = scan_fold(lsv, k as nat);
                &&& st.error is None
                &&& attribute_views(attributes@) == st.attributes
                &&& mesh_views(meshes@) == st.meshes
                &&& cur_name@ == st.current.name
                &&& cur_faces@ == st.current.faces
            }),
        decreases n - k,
    {
        let ghost st = scan_fold(lsv, k as nat);
        assert(lsv[k as int] == ls@[k as int]@);
        match parse_line(&ls[k], k) {
            Err(e) => {
                proof {
                    lemma_scan_error_persists(lsv, (k + 1) as nat, lsv.len());
                }
                return ObjScan { attributes, meshes: Err(e) };
            },
            Ok(ObjLine::Skip) => {},
            Ok(ObjLine::Attribute(kind, text)) => {
                let ghost before = attributes@;
                attributes.push(AttributeLine { kind, line_no: k, text: string_of(&text) });
                assert(attribute_views(attributes@) =~= attribute_views(before).push(
                    AttributeView { kind, line_no: k as nat, text: text@ },
                ));
            },
            Ok(ObjLine::Face(tris)) => {
                let mut tris = tris;
                cur_faces.append(&mut tris);
            },
            Ok(ObjLine::Group(name)) => {
                if cur_faces.len() > 0 {
                    let ghost before = meshes@;
                    meshes.push(SubMesh { name: cur_name, faces: cur_faces });
                    assert(mesh_views(meshes@) =~= mesh_views(before).push(st.current));
                }
                cur_name = string_of(&name);
                cur_faces = Vec::new();
            },
        }
        k = k + 1;
    }
    let ghost st = scan_fold(lsv, n as nat);
    if cur_faces.len() > 0 {
        let ghost before = meshes@;
        meshes.push(SubMesh { name: cur_name, faces: cur_faces });
        assert(mesh_views(meshes@) =~= mesh_views(before).push(st.current));
    }
    if meshes.len() == 0 {
        return ObjScan {
            attributes,
            meshes: Err(LoadError::Obj(String::from_str("file contains no geometry"))),
        };
    }
    ObjScan { attributes, meshes: Ok(meshes) }
}

/// The lines `ls` joined with a `'\n'` between each two.
pub open spec fn join_lines(ls: Seq<Seq<char>>) -> Seq<char>
    decreases ls.len(),
{
    if ls.len() == 0 {
        seq![]
    } else if ls.len() == 1 {
        ls[0]
    } else {
        ls[0] + seq!['\n'] + join_lines(ls.drop_first())
    }
}

/// `s` without its final `'\n'`, if it ends with one.
pub open spec fn without_final_newline(s: Seq<char>) -> Seq<char> {
    if s.len() > 0 && s.last() == '\n' {
        s.drop_last()
    } else {
        s
    }
}

proof fn lemma_next_newline_scan(s: Seq<char>, i: int)
    requires
        0 <= i <= s.len(),
    ensures
        i <= next_newline(s, i) <= s.len(),
        next_newline(s, i) < s.len() ==> s[next_newline(s, i)] == '\n',
        forall|k: int| i <= k < next_newline(s, i) ==> #[trigger] s[k] != '\n',
    decreases s.len() - i,
{
    if i < s.len() && s[i] != '\n' {
        lemma_next_newline_scan(s, i + 1);
    }
}

proof fn lemma_lines_from_join(s: Seq<char>, i: int)
    requires
        0 <= i <= s.len(),
    ensures
        join_lines(lines_from(s, i)) == without_final_newline(s.subrange(i, s.len() as int)),
        forall|m: int, k: int|
            0 <= m < lines_from(s, i).len() && 0 <= k < lines_from(s, i)[m].len()
                ==> #[trigger] lines_from(s, i)[m][k] != '\n',
    decreases s.len() - i,
{
    let tail = s.subrange(i, s.len() as int);
    if i < s.len() {
        lemma_next_newline_scan(s, i);
        let e = next_newline(s, i);
        let first = s.subrange(i, e);
        let ls = lines_from(s, i);
        assert(ls == seq![first] + lines_from(s, e + 1));
        if e + 1 <= s.len() {
            lemma_lines_from_join(s, e + 1);
        }
        let rest = lines_from(s, e + 1);
        assert forall|m: int, k: int|
            0 <= m < ls.len() && 0 <= k < ls[m].len() implies #[trigger] ls[m][k] != '\n' by {
            if m == 0 {
                assert(ls[m][k] == s[i + k]);
            } else {
                assert(ls[m] == rest[m - 1]);
            }
        }
        if e == s.len() {
            assert(rest.len() == 0);
            assert(ls =~= seq![first]);
            assert(first =~= tail);
            assert(tail.len() > 0 && tail.last() == s[s.len() - 1]);
        } else if e + 1 == s.len() {
            assert(rest.len() == 0);
            assert(ls =~= seq![first]);
            assert(tail.last() == '\n');
            assert(tail.drop_last() =~= first);
        } else {
            assert(rest.len() > 0);
            assert(ls.drop_first() =~= rest);
            let t2 = s.subrange(e + 1, s.len() as int);
            assert(tail =~= first + seq!['\n'] + t2);
            assert(tail.last() == t2.last());
            if t2.last() == '\n' {
                assert(tail.drop_last() =~= first + seq!['\n'] + t2.drop_last());
            }
        }
    } else {
        assert(tail =~= Seq::<char>::empty());
    }
}

/// Line law: splitting a text into lines loses no text and invents none:
/// no line holds a `'\n'`, and joining the lines with `'\n'` gives back the
/// text without its final `'\n'`, so a last line that has none is a line too.
pub proof fn lemma_lines_lose_nothing(s: Seq<char>)
    ensures
        join_lines(lines(s)) == without_final_newline(s),
        forall|m: int, k: int|
            0 <= m < lines(s).len() && 0 <= k < lines(s)[m].len() ==> #[trigger] lines(s)[m][k]
                != '\n',
{
    lemma_lines_from_join(s, 0);
    assert(s.subrange(0, s.len() as int) =~= s);
}

proof fn lemma_next_newline_push(t: Seq<char>, i: int)
    requires
        0 <= i <= t.len(),
    ensures
        next_newline(t.push('\n'), i) == next_newline(t, i),
    decreases t.len() - i,
{
    if i < t.len() {
        assert(t.push('\n')[i] == t[i]);
        if t[i] != '\n' {
            lemma_next_newline_push(t, i + 1);
        }
    }
}

proof fn lemma_lines_from_push(t: Seq<char>, i: int)
    requires
        0 <= i < t.len(),
        t.last() != '\n',
    ensures
        lines_from(t.push('\n'), i) == lines_from(t, i),
    decreases t.len() - i,
{
    lemma_next_newline_push(t, i);
    lemma_next_newline_scan(t, i);
    let e = next_newline(t, i);
    let p = t.push('\n');
    assert(p.subrange(i, e) =~= t.subrange(i, e));
    if e < t.len() {
        assert(e < t.len() - 1);
        lemma_lines_from_push(t, e + 1);
    } else {
        assert(lines_from(p, e + 1) =~= Seq::<Seq<char>>::empty());
        assert(lines_from(t, e + 1) =~= Seq::<Seq<char>>::empty());
    }
    assert(lines_from(p, i) == seq![p.subrange(i, e)] + lines_from(p, e + 1));
    assert(lines_from(t, i) == seq![t.subrange(i, e)] + lines_from(t, e + 1));
}

/// A final newline changes nothing: a text whose last line has no `'\n'`
/// after it is read exactly as the same text with one.
pub proof fn lemma_final_newline_changes_nothing(t: Seq<char>)
    requires
        t.len() == 0 || t.last() != '\n',
    ensures
        scan_meshes(t.push('\n')) == scan_meshes(t),
        t.len() > 0 ==> scan_state(t.push('\n')) == scan_state(t),
{
    if t.len() == 0 {
        let p = t.push('\n');
        assert(p.subrange(0, 0) =~= Seq::<char>::empty());
        assert(lines_from(p, 1) =~= Seq::<Seq<char>>::empty());
        assert(lines(p) =~= seq![Seq::<char>::empty()]);
        assert(lines(t) =~= Seq::<Seq<char>>::empty());
        assert(trim(Seq::<char>::empty()) =~= Seq::<char>::empty());
        assert(line_spec(Seq::<char>::empty(), 0) == Ok::<LineItem, Seq<char>>(LineItem::Skip));
        assert(lines(p)[0] == Seq::<char>::empty());
        assert(scan_fold(lines(p), 1) == scan_fold(lines(p), 0));
        assert(scan_state(p) == scan_state(t));
    } else {
        lemma_lines_from_push(t, 0);
        assert(scan_state(t.push('\n')) == scan_state(t));
    }
}

// ── Lines the reader passes over ────────────────────────────────────────────

/// A line the reader passes over: blank, a `#` comment, or one whose first
/// word is none of `v`, `vn`, `vt`, `f`, `o`, `g` (such as `mtllib`,
/// `usemtl` or `s`).
pub open spec fn ignored_line(l: Seq<char>) -> bool {
    let t = trim(l);
    t.len() == 0 || t[0] == '#' || keyword_of(t.subrange(0, word_end(t, 0))) == Keyword::Other
}

proof fn lemma_face_vertex_any_line(tok: Seq<char>, n: nat, m: nat)
    ensures
        face_vertex_spec(tok, n) is Ok == face_vertex_spec(tok, m) is Ok,
        face_vertex_spec(tok, n) is Ok ==> face_vertex_spec(tok, n) == face_vertex_spec(tok, m),
{
}

proof fn lemma_corners_any_line(toks: Seq<Seq<char>>, n: nat, m: nat, k: nat)
    ensures
        corners_spec(toks, n, k) is Ok == corners_spec(toks, m, k) is Ok,
        corners_spec(toks, n, k) is Ok ==> corners_spec(toks, n, k) == corners_spec(toks, m, k),
    decreases k,
{
    if k > 0 {
        lemma_corners_any_line(toks, n, m, (k - 1) as nat);
        lemma_face_vertex_any_line(toks[k - 1], n, m);
    }
}

/// Whether a line is read without error, and what it holds then, does not
/// depend on its line number.
proof fn lemma_line_spec_any_line(l: Seq<char>, n: nat, m: nat)
    ensures
        line_spec(l, n) is Ok == line_spec(l, m) is Ok,
        line_spec(l, n) is Ok ==> line_spec(l, n) == line_spec(l, m),
{
    let t = trim(l);
    let k = word_end(t, 0);
    let rest = if k < t.len() {
        trim(t.subrange(k + 1, t.len() as int))
    } else {
        seq![]
    };
    let toks = tokens(rest);
    lemma_corners_any_line(toks, n, m, toks.len());
}

proof fn lemma_scan_fold_same_prefix(l1: Seq<Seq<char>>, l2: Seq<Seq<char>>, n: nat)
    requires
        n <= l1.len(),
        n <= l2.len(),
        forall|i: int| 0 <= i < n ==> l1[i] == l2[i],
    ensures
        scan_fold(l1, n) == scan_fold(l2, n),
    decreases n,
{
    if n > 0 {
        lemma_scan_fold_same_prefix(l1, l2, (n - 1) as nat);
        assert(l1[n - 1] == l2[n - 1]);
    }
}

/// Two reader states that hold the same objects and agree on whether an
/// error was met.
spec fn same_objects(a: ScanState, b: ScanState) -> bool {
    &&& a.meshes == b.meshes
    &&& a.current == b.current
    &&& (a.error is Some <==> b.error is Some)
}

/// Reading `l1`, then the passed-over line `x`, then `j` lines of `l2`
/// gives the same objects as reading `l1` and the same `j` lines of `l2`.
proof fn lemma_scan_fold_without_line(l1: Seq<Seq<char>>, x: Seq<char>, l2: Seq<Seq<char>>, j: nat)
    requires
        ignored_line(x),
        j <= l2.len(),
    ensures
        same_objects(
            scan_fold(l1 + seq![x] + l2, l1.len() + 1 + j),
            scan_fold(l1 + l2, l1.len() + j),
        ),
    decreases j,
{
    let a = l1 + seq![x] + l2;
    let b = l1 + l2;
    let k = l1.len();
    if j == 0 {
        assert forall|i: int| 0 <= i < k implies a[i] == b[i] by {
            assert(a[i] == l1[i]);
            assert(b[i] == l1[i]);
        }
        lemma_scan_fold_same_prefix(a, b, k);
        assert(a[k as int] == x);
        assert(line_spec(x, k) == Ok::<LineItem, Seq<char>>(LineItem::Skip));
    } else {
        lemma_scan_fold_without_line(l1, x, l2, (j - 1) as nat);
        let l = l2[j - 1];
        assert(a[(k + j) as int] == l);
        assert(b[k + j - 1] == l);
        lemma_line_spec_any_line(l, (k + j) as nat, (k + j - 1) as nat);
    }
}

proof fn lemma_next_newline_in_prefix(a: Seq<char>, c: Seq<char>, i: int)
    requires
        0 <= i < a.len(),
        a.last() == '\n',
    ensures
        next_newline(a + c, i) == next_newline(a, i),
        next_newline(a, i) < a.len(),
    decreases a.len() - i,
{
    assert((a + c)[i] == a[i]);
    if a[i] != '\n' {
        lemma_next_newline_in_prefix(a, c, i + 1);
    }
}

proof fn lemma_next_newline_shift(p: Seq<char>, c: Seq<char>, j: int)
    requires
        0 <= j <= c.len(),
    ensures
        next_newline(p + c, p.len() + j) == p.len() + next_newline(c, j),
    decreases c.len() - j,
{
    if j < c.len() {
        assert((p + c)[p.len() + j] == c[j]);
        if c[j] != '\n' {
            lemma_next_newline_shift(p, c, j + 1);
        }
    }
}

proof fn lemma_lines_from_shift(p: Seq<char>, c: Seq<char>, j: int)
    requires
        0 <= j <= c.len(),
    ensures
        lines_from(p + c, p.len() + j) == lines_from(c, j),
    decreases c.len() - j,
{
    if j < c.len() {
        lemma_next_newline_shift(p, c, j);
        lemma_next_newline_bounds(c, j);
        let e = next_newline(c, j);
        assert((p + c).subrange(p.len() + j, p.len() + e) =~= c.subrange(j, e));
        if e + 1 <= c.len() {
            lemma_lines_from_shift(p, c, e + 1);
        } else {
            assert(lines_from(p + c, p.len() + e + 1) =~= Seq::<Seq<char>>::empty());
            assert(lines_from(c, e + 1) =~= Seq::<Seq<char>>::empty());
        }
        assert(lines_from(c, j) == seq![c.subrange(j, e)] + lines_from(c, e + 1));
        assert(lines_from(p + c, p.len() + j) == seq![(p + c).subrange(p.len() + j, p.len() + e)]
            + lines_from(p + c, p.len() + e + 1));
    }
}

proof fn lemma_lines_from_concat(a: Seq<char>, c: Seq<char>, i: int)
    requires
        a.len() == 0 || a.last() == '\n',
        0 <= i <= a.len(),
    ensures
        lines_from(a + c, i) == lines_from(a, i) + lines(c),
    decreases a.len() - i,
{
    if i == a.len() {
        lemma_lines_from_shift(a, c, 0);
        assert(lines_from(a, i) + lines(c) =~= lines(c));
    } else {
        lemma_next_newline_in_prefix(a, c, i);
        lemma_next_newline_bounds(a, i);
        let e = next_newline(a, i);
        assert((a + c).subrange(i, e) =~= a.subrange(i, e));
        lemma_lines_from_concat(a, c, e + 1);
        assert(lines_from(a + c, i) =~= seq![a.subrange(i, e)] + (lines_from(a, e + 1) + lines(c)));
        assert(lines_from(a, i) =~= seq![a.subrange(i, e)] + lines_from(a, e + 1));
    }
}

proof fn lemma_one_line(x: Seq<char>, i: int)
    requires
        0 <= i <= x.len(),
        forall|k: int| 0 <= k < x.len() ==> x[k] != '\n',
    ensures
        next_newline(x.push('\n'), i) == x.len(),
    decreases x.len() - i,
{
    if i < x.len() {
        assert(x.push('\n')[i] == x[i]);
        lemma_one_line(x, i + 1);
    }
}

/// Blank lines, comments and lines of any other keyword (`mtllib`,
/// `usemtl`, `s`, ...) are passed over: inserting such a line `x` between
/// two lines of a file (after `a`, before `b`), or removing it, leaves the
/// objects read from the file unchanged, and a refused file stays refused.
pub proof fn lemma_ignored_line_changes_nothing(a: Seq<char>, x: Seq<char>, b: Seq<char>)
    requires
        a.len() == 0 || a.last() == '\n',
        forall|k: int| 0 <= k < x.len() ==> x[k] != '\n',
        ignored_line(x),
    ensures
        scan_meshes(a + x.push('\n') + b) is Ok == scan_meshes(a + b) is Ok,
        scan_meshes(a + b) is Ok ==> scan_meshes(a + x.push('\n') + b) == scan_meshes(a + b),
{
    let p = x.push('\n');
    let s1 = a + p + b;
    let s2 = a + b;
    assert(s1 =~= a + (p + b));
    lemma_lines_from_concat(a, p + b, 0);
    lemma_lines_from_concat(p, b, 0);
    lemma_one_line(x, 0);
    assert(p.subrange(0, x.len() as int) =~= x);
    assert(lines_from(p, x.len() + 1 as int) =~= Seq::<Seq<char>>::empty());
    assert(lines(p) =~= seq![x]);
    lemma_lines_from_concat(a, b, 0);
    let l1 = lines(a);
    let l2 = lines(b);
    assert(lines(s1) =~= l1 + seq![x] + l2);
    assert(lines(s2) == l1 + l2);
    lemma_scan_fold_without_line(l1, x, l2, l2.len());
}

proof fn lemma_no_newline(x: Seq<char>, i: int)
    requires
        0 <= i <= x.len(),
        forall|k: int| 0 <= k < x.len() ==> x[k] != '\n',
    ensures
        next_newline(x, i) == x.len(),
    decreases x.len() - i,
{
    if i < x.len() {
        lemma_no_newline(x, i + 1);
    }
}

/// The same for a passed-over last line `x` that has no `'\n'` after it:
/// adding it at the end of a file whose text `a` is empty or ends with a
/// newline, or removing it, leaves the objects read unchanged, and a
/// refused file stays refused.
pub proof fn lemma_ignored_last_line_changes_nothing(a: Seq<char>, x: Seq<char>)
    requires
        a.len() == 0 || a.last() == '\n',
        forall|k: int| 0 <= k < x.len() ==> x[k] != '\n',
        ignored_line(x),
    ensures
        scan_meshes(a + x) is Ok == scan_meshes(a) is Ok,
        scan_meshes(a) is Ok ==> scan_meshes(a + x) == scan_meshes(a),
{
    if x.len() == 0 {
        assert(a + x =~= a);
    } else {
        lemma_lines_from_concat(a, x, 0);
        lemma_no_newline(x, 0);
        assert(x.subrange(0, x.len() as int) =~= x);
        assert(lines_from(x, x.len() + 1 as int) =~= Seq::<Seq<char>>::empty());
        assert(lines(x) =~= seq![x]);
        let l1 = lines(a);
        let l2 = Seq::<Seq<char>>::empty();
        assert(lines(a + x) =~= l1 + seq![x] + l2);
        assert(l1 + l2 =~= l1);
        lemma_scan_fold_without_line(l1, x, l2, 0);
    }
}

// ── Indexed triangle lists ──────────────────────────────────────────────────

/// Key under which identical corners share one vertex: the position index in
/// the low bits, the texture-coordinate index from bit 20 and the normal
/// index from bit 40.
pub open spec fn vertex_key(fv: FaceVertex) -> u64 {
    (fv.pos as u64) | ((fv.uv as u64) << 20u64) | ((fv.nor as u64) << 40u64)
}

fn vertex_key_exec(fv: FaceVertex) -> (k: u64)
    ensures
        k == vertex_key(fv),
{
    (fv.pos as u64) | ((fv.uv as u64) << 20u64) | ((fv.nor as u64) << 40u64)
}

/// Where a vertex takes its attributes from: indices into the position,
/// normal and texture-coordinate lists, or `None` for the default value
/// (origin, `+Y` normal, zero UV).
#[derive(Copy, Clone, Debug, PartialEq, Eq, Structural)]
pub struct VertexSource {
    pub position: Option<usize>,
    pub normal: Option<usize>,
    pub uv: Option<usize>,
}

/// The attribute sources of corner `fv`, given how many positions, normals
/// and texture coordinates the file has.  `pos` is zero-based; `uv` and
/// `nor` are one-based with `0` meaning absent.
pub open spec fn resolve(fv: FaceVertex, positions: nat, normals: nat, uvs: nat) -> VertexSource {
    VertexSource {
        position: if (fv.pos as nat) < positions {
            Some(fv.pos as usize)
        } else {
            None
        },
        normal: if fv.nor > 0 && ((fv.nor - 1) as nat) < normals {
            Some((fv.nor - 1) as usize)
        } else {
            None
        },
        uv: if fv.uv > 0 && ((fv.uv - 1) as nat) < uvs {
            Some((fv.uv - 1) as usize)
        } else {
            None
        },
    }
}

fn resolve_exec(fv: FaceVertex, positions: usize, normals: usize, uvs: usize) -> (r: VertexSource)
    ensures
        r == resolve(fv, positions as nat, normals as nat, uvs as nat),
{
    VertexSource {
        position: if (fv.pos as usize) < positions {
            Some(fv.pos as usize)
        } else {
            None
        },
        normal: if fv.nor > 0 && ((fv.nor - 1) as usize) < normals {
            Some((fv.nor - 1) as usize)
        } else {
            None
        },
        uv: if fv.uv > 0 && ((fv.uv - 1) as usize) < uvs {
            Some((fv.uv - 1) as usize)
        } else {
            None
        },
    }
}

/// The corners of `faces` in order, three per triangle.
pub open spec fn corners(faces: Seq<[FaceVertex; 3]>) -> Seq<FaceVertex> {
    Seq::new(3 * faces.len(), |k: int| faces[k / 3][k % 3])
}

/// Vertices made so far: the key of each vertex mapped to its index, the
/// corner each vertex was made from, and the index list.
pub struct Welding {
    pub slots: Map<u64, u32>,
    pub sources: Seq<FaceVertex>,
    pub indices: Seq<u32>,
}

/// Corners in order: a corner whose key was seen before reuses that vertex,
/// otherwise it makes the next vertex (numbered as a `u32`).
pub open spec fn weld(cs: Seq<FaceVertex>) -> Welding
    decreases cs.len(),
{
    if cs.len() == 0 {
        Welding { slots: Map::empty(), sources: seq![], indices: seq![] }
    } else {
        let w = weld(cs.drop_last());
        let key = vertex_key(cs.last());
        if w.slots.contains_key(key) {
            Welding { indices: w.indices.push(w.slots[key]), ..w }
        } else {
            let idx = w.sources.len() as u32;
            Welding {
                slots: w.slots.insert(key, idx),
                sources: w.sources.push(cs.last()),
                indices: w.indices.push(idx),
            }
        }
    }
}

/// An indexed triangle list whose vertex attributes are still to be looked
/// up: `vertices[i]` says where vertex `i` takes its data from and every
/// three consecutive `indices` form a triangle.
#[derive(Debug)]
pub struct MeshTopology {
    pub vertices: Vec<VertexSource>,
    pub indices: Vec<u32>,
}

/// Turns the triangles of a sub-mesh into an indexed triangle list in which
/// corners with the same position/UV/normal indices share one vertex.
pub fn build_mesh_topology(
    faces: &Vec<[FaceVertex; 3]>,
    positions: usize,
    normals: usize,
    uvs: usize,
) -> (r: MeshTopology)
    ensures
        r.indices@ == weld(corners(faces@)).indices,
        r.vertices@ == weld(corners(faces@)).sources.map_values(
            |fv: FaceVertex| resolve(fv, positions as nat, normals as nat, uvs as nat),
        ),
{
    let ghost cs = corners(faces@);
    let mut slots: std::collections::HashMap<u64, u32> = std::collections::HashMap::new();
    let mut vertices: Vec<VertexSource> = Vec::new();
    let mut indices: Vec<u32> = Vec::new();
    let ghost mut sources: Seq<FaceVertex> = seq![];
    let mut f: usize = 0;
    while f < faces.len()
        invariant
            f <= faces@.len(),
            cs == corners(faces@),
            ({
                let w = weld(cs.take(3 * f as int));
                &&& slots@ == w.slots
                &&& sources == w.sources
                &&& indices@ == w.indices
                &&& vertices@ == sources.map_values(
                    |fv: FaceVertex| resolve(fv, positions as nat, normals as nat, uvs as nat),
                )
            }),
        decreases faces@.len() - f,
    {
        let tri = faces[f];
        let mut c: usize = 0;
        while c < 3
            invariant
                f < faces@.len(),
                tri == faces@[f as int],
                c <= 3,
                cs == corners(faces@),
                ({
                    let w = weld(cs.take(3 * f + c));
                    &&& slots@ == w.slots
                    &&& sources == w.sources
                    &&& indices@ == w.indices
                    &&& vertices@ == sources.map_values(
                        |fv: FaceVertex| resolve(fv, positions as nat, normals as nat, uvs as nat),
                    )
                }),
            decreases 3 - c,
        {
            let fv = tri[c];
            let ghost pre = cs.take(3 * f + c);
            let ghost next = cs.take(3 * f + c + 1);
            assert(next.drop_last() =~= pre);
            assert(next.last() == fv);
            let key = vertex_key_exec(fv);
            match slots.get(&key) {
                Some(idx) => {
                    let idx = *idx;
                    indices.push(idx);
                },
                None => {
                    let idx = vertices.len() as u32;
                    slots.insert(key, idx);
                    let ghost before = vertices@;
                    vertices.push(resolve_exec(fv, positions, normals, uvs));
                    proof {
                        sources = sources.push(fv);
                        assert(vertices@ =~= sources.map_values(
                            |fv: FaceVertex| resolve(fv, positions as nat, normals as nat, uvs as nat),
                        ));
                    }
                    indices.push(idx);
                },
            }
            c = c + 1;
        }
        f = f + 1;
    }
    assert(cs.take(3 * faces@.len() as int) =~= cs);
    MeshTopology { vertices, indices }
}

/// What the welding keeps true: every slot names the vertex made for its key,
/// vertices have distinct keys, and each index points at a vertex with the
/// key of its corner.
proof fn lemma_weld_invariant(cs: Seq<FaceVertex>)
    requires
        cs.len() <= u32::MAX,
    ensures
        ({
            let w = weld(cs);
            &&& w.indices.len() == cs.len()
            &&& w.sources.len() <= cs.len()
            &&& forall|key: u64|
                w.slots.contains_key(key) ==> {
                    &&& (#[trigger] w.slots[key] as int) < w.sources.len()
                    &&& vertex_key(w.sources[w.slots[key] as int]) == key
                }
            &&& forall|i: int|
                0 <= i < w.sources.len() ==> #[trigger] w.slots.contains_key(
                    vertex_key(w.sources[i]),
                ) && w.slots[vertex_key(w.sources[i])] == i
            &&& forall|i: int|
                0 <= i < cs.len() ==> (#[trigger] w.indices[i] as int) < w.sources.len()
                    && vertex_key(w.sources[w.indices[i] as int]) == vertex_key(cs[i])
            &&& forall|i: int|
                0 <= i < w.sources.len() ==> exists|j: int|
                    0 <= j < cs.len() && #[trigger] w.sources[i] == cs[j]
        }),
    decreases cs.len(),
{
    if cs.len() > 0 {
        let p = cs.drop_last();
        lemma_weld_invariant(p);
        let w0 = weld(p);
        let w = weld(cs);
        let key = vertex_key(cs.last());
        assert forall|i: int| 0 <= i < w.sources.len() implies exists|j: int|
            0 <= j < cs.len() && #[trigger] w.sources[i] == cs[j] by {
            if i < w0.sources.len() {
                let j = choose|j: int| 0 <= j < p.len() && #[trigger] w0.sources[i] == p[j];
                assert(w.sources[i] == cs[j]);
            } else {
                assert(w.sources[i] == cs[cs.len() - 1]);
            }
        }
        if !w0.slots.contains_key(key) {
            assert forall|i: int| 0 <= i < w.sources.len() implies #[trigger] w.slots.contains_key(
                vertex_key(w.sources[i]),
            ) && w.slots[vertex_key(w.sources[i])] == i by {
                if i < w0.sources.len() {
                    assert(w0.slots.contains_key(vertex_key(w0.sources[i])));
                }
            }
        }
        assert forall|i: int|
            0 <= i < cs.len() implies (#[trigger] w.indices[i] as int) < w.sources.len()
            && vertex_key(w.sources[w.indices[i] as int]) == vertex_key(cs[i]) by {
            if i < p.len() {
                assert(w.indices[i] == w0.indices[i]);
                assert(cs[i] == p[i]);
            }
        }
    }
}

/// Welding laws: for a sub-mesh of at most `u32::MAX` corners, there is one
/// index per corner, every index names an existing vertex whose position/UV/
/// normal indices are those of the corner, no two vertices share those
/// indices, and every vertex comes from a corner of the faces.
pub proof fn lemma_weld_laws(faces: Seq<[FaceVertex; 3]>)
    requires
        3 * faces.len() <= u32::MAX,
    ensures
        ({
            let cs = corners(faces);
            let w = weld(cs);
            &&& w.indices.len() == 3 * faces.len()
            &&& forall|i: int|
                0 <= i < cs.len() ==> (#[trigger] w.indices[i] as int) < w.sources.len()
                    && vertex_key(w.sources[w.indices[i] as int]) == vertex_key(cs[i])
            &&& forall|i: int, j: int|
                0 <= i < j < w.sources.len() ==> vertex_key(#[trigger] w.sources[i])
                    != vertex_key(#[trigger] w.sources[j])
            &&& forall|i: int|
                0 <= i < w.sources.len() ==> exists|t: int, c: int|
                    0 <= t < faces.len() && 0 <= c < 3 && #[trigger] w.sources[i] == faces[t][c]
        }),
{
    let cs = corners(faces);
    lemma_weld_invariant(cs);
    let w = weld(cs);
    assert forall|i: int, j: int|
        0 <= i < j < w.sources.len() implies vertex_key(#[trigger] w.sources[i]) != vertex_key(
        #[trigger] w.sources[j],
    ) by {
        assert(w.slots.contains_key(vertex_key(w.sources[i])));
        assert(w.slots.contains_key(vertex_key(w.sources[j])));
    }
    assert forall|i: int| 0 <= i < w.sources.len() implies exists|t: int, c: int|
        0 <= t < faces.len() && 0 <= c < 3 && #[trigger] w.sources[i] == faces[t][c] by {
        let j = choose|j: int| 0 <= j < cs.len() && #[trigger] w.sources[i] == cs[j];
        assert(w.sources[i] == faces[j / 3][j % 3]);
    }
}

proof fn lemma_fold_meshes_nonempty(ls: Seq<Seq<char>>, n: nat)
    ensures
        forall|i: int|
            0 <= i < scan_fold(ls, n).meshes.len() ==> #[trigger] scan_fold(
                ls,
                n,
            ).meshes[i].faces.len() > 0,
    decreases n,
{
    if n > 0 {
        lemma_fold_meshes_nonempty(ls, (n - 1) as nat);
    }
}

/// Every object an OBJ file yields has at least one triangle, and a file
/// that is accepted yields at least one object: each `o`/`g` group with
/// faces becomes its own mesh and groups without faces are dropped.
pub proof fn lemma_scan_meshes_nonempty(source: Seq<char>)
    ensures
        scan_meshes(source) matches Ok(ms) ==> ms.len() > 0 && forall|i: int|
            0 <= i < ms.len() ==> (#[trigger] ms[i]).faces.len() > 0,
{
    let ls = lines(source);
    lemma_fold_meshes_nonempty(ls, ls.len());
}

} // verus!
