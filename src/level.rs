//! The text format of level files: a function from the file's characters to
//! a level, or to the first field that is missing or malformed.
use vstd::prelude::*;
use vstd::std_specs::iter::IteratorSpec;
use crate::components::{CellType, Point};
use crate::resources::{ExerciseData, World};
use crate::rules::{grid_fits, lemma_index_bound};

verus! {

broadcast use vstd::string::group_string_axioms;

/// A field of a level file.
#[derive(Clone, Copy, Debug, PartialEq, Eq, Structural)]
pub enum LevelField {
    Size,
    Width,
    Height,
    ElectronFlag,
    Row,
    ExerciseCount,
    Description,
    Timeout,
    SpawnCount,
    Spawn,
    SpawnInstant,
    SpawnX,
    SpawnY,
    OutputCount,
    Output,
    OutputFrom,
    OutputUntil,
    OutputX,
    OutputY,
}

/// Why a level file was refused: the field, and the line (counted from
/// zero) at which it was expected.
#[derive(Clone, Copy, Debug, PartialEq, Eq, Structural)]
pub enum LevelError {
    /// The line or the token is not there.
    Missing(LevelField, usize),
    /// The token is there but does not read as the field.
    Malformed(LevelField, usize),
}

/// One exercise as the format describes it: description, timeout,
/// injections and outputs.
pub type ExerciseModel = (Seq<char>, usize, Seq<(Point, usize)>, Seq<(Point, usize, usize)>);

/// A level as the format describes it: size, cells row by row, whether
/// electrons may be placed, and the exercises.
pub type LevelModel = ((usize, usize), Seq<CellType>, bool, Seq<ExerciseModel>);

/// Lines of `s` from position `i`, `cur` being the part of the current line
/// read so far: lines end at `'\n'`, a `'\r'` before it is dropped, and a
/// final line ending is optional.
pub open spec fn lines_acc(s: Seq<char>, i: int, cur: Seq<char>, acc: Seq<Seq<char>>) -> Seq<
    Seq<char>,
>
    decreases s.len() - i,
{
    if i >= s.len() {
        if cur.len() > 0 {
            acc.push(cur)
        } else {
            acc
        }
    } else if s[i] == '\n' {
        lines_acc(s, i + 1, Seq::empty(), acc.push(trim_cr(cur)))
    } else {
        lines_acc(s, i + 1, cur.push(s[i]), acc)
    }
}

pub open spec fn trim_cr(line: Seq<char>) -> Seq<char> {
    if line.len() > 0 && line.last() == '\r' {
        line.drop_last()
    } else {
        line
    }
}

/// The lines of a text.
pub open spec fn lines_of(s: Seq<char>) -> Seq<Seq<char>> {
    lines_acc(s, 0, Seq::empty(), Seq::empty())
}

/// Tokens of `l` from position `i`: every single space separates two tokens,
/// so two spaces in a row make an empty token.
pub open spec fn split_acc(l: Seq<char>, i: int, cur: Seq<char>, acc: Seq<Seq<char>>) -> Seq<
    Seq<char>,
>
    decreases l.len() - i,
{
    if i >= l.len() {
        acc.push(cur)
    } else if l[i] == ' ' {
        split_acc(l, i + 1, Seq::empty(), acc.push(cur))
    } else {
        split_acc(l, i + 1, cur.push(l[i]), acc)
    }
}

/// The space-separated tokens of a line; there is always at least one.
pub open spec fn tokens_of(l: Seq<char>) -> Seq<Seq<char>> {
    split_acc(l, 0, Seq::empty(), Seq::empty())
}

pub open spec fn is_digit(c: char) -> bool {
    '0' <= c && c <= '9'
}

pub open spec fn digit_of(c: char) -> nat {
    ((c as u32) - ('0' as u32)) as nat
}

/// The number that a string of decimal digits writes.
pub open spec fn digits_value(d: Seq<char>) -> nat
    decreases d.len(),
{
    if d.len() == 0 {
        0
    } else {
        digits_value(d.drop_last()) * 10 + digit_of(d.last())
    }
}

/// A token without its leading `'+'`, if it has one.
pub open spec fn unsigned_digits(t: Seq<char>) -> Seq<char> {
    if t.len() > 0 && t[0] == '+' {
        t.drop_first()
    } else {
        t
    }
}

/// The `usize` that a token writes in decimal, with an optional leading
/// `'+'`; none for an empty token, any other character, or a value past
/// `usize::MAX`.
pub open spec fn usize_value(t: Seq<char>) -> Option<usize> {
    let d = unsigned_digits(t);
    if d.len() > 0 && (forall|i: int| 0 <= i < d.len() ==> is_digit(#[trigger] d[i]))
        && digits_value(d) <= usize::MAX {
        Some(digits_value(d) as usize)
    } else {
        None
    }
}

/// `true` and `false`, exactly.
pub open spec fn bool_value(t: Seq<char>) -> Option<bool> {
    if t == seq!['t', 'r', 'u', 'e'] {
        Some(true)
    } else if t == seq!['f', 'a', 'l', 's', 'e'] {
        Some(false)
    } else {
        None
    }
}

/// The cell that a token of a row stands for.
pub open spec fn cell_of(t: Seq<char>) -> CellType {
    if t == seq!['a'] {
        CellType::ELECTRON(false)
    } else if t == seq!['w'] {
        CellType::WIRE(false)
    } else if t == seq!['A'] {
        CellType::ELECTRON(true)
    } else if t == seq!['W'] {
        CellType::WIRE(true)
    } else if t == seq!['E'] {
        CellType::EMPTY(true)
    } else {
        CellType::EMPTY(false)
    }
}

/// A line that holds one number, in full.
pub open spec fn number_line(ls: Seq<Seq<char>>, p: int, f: LevelField) -> Result<usize, LevelError> {
    if p >= ls.len() {
        Err(LevelError::Missing(f, p as usize))
    } else {
        match usize_value(ls[p]) {
            Some(v) => Ok(v),
            None => Err(LevelError::Malformed(f, p as usize)),
        }
    }
}

/// Token `k` of a line, read as a number.
pub open spec fn number_token(t: Seq<Seq<char>>, k: int, f: LevelField, p: int) -> Result<usize, LevelError> {
    if k >= t.len() {
        Err(LevelError::Missing(f, p as usize))
    } else {
        match usize_value(t[k]) {
            Some(v) => Ok(v),
            None => Err(LevelError::Malformed(f, p as usize)),
        }
    }
}

/// The size line: width and height, whose product must fit a `usize`.
pub open spec fn size_spec(ls: Seq<Seq<char>>) -> Result<(usize, usize), LevelError> {
    if ls.len() == 0 {
        Err(LevelError::Missing(LevelField::Size, 0))
    } else {
        let t = tokens_of(ls[0]);
        match number_token(t, 0, LevelField::Width, 0) {
            Err(e) => Err(e),
            Ok(w) => match number_token(t, 1, LevelField::Height, 0) {
                Err(e) => Err(e),
                Ok(h) => if w * h > usize::MAX {
                    Err(LevelError::Malformed(LevelField::Size, 0))
                } else {
                    Ok((w, h))
                },
            },
        }
    }
}

/// The electron flag on line 1.
pub open spec fn flag_spec(ls: Seq<Seq<char>>) -> Result<bool, LevelError> {
    if ls.len() < 2 {
        Err(LevelError::Missing(LevelField::ElectronFlag, 1))
    } else {
        match bool_value(ls[1]) {
            Some(b) => Ok(b),
            None => Err(LevelError::Malformed(LevelField::ElectronFlag, 1)),
        }
    }
}

/// The cells of one row: its first `w` tokens.
pub open spec fn row_cells(t: Seq<Seq<char>>, w: int) -> Seq<CellType> {
    Seq::new(w as nat, |j: int| cell_of(t[j]))
}

/// Rows `y..h` of the grid, on lines `2 + y` on, appended to `acc`; a row
/// needs at least `w` tokens.
pub open spec fn rows_acc(ls: Seq<Seq<char>>, w: int, h: int, y: int, acc: Seq<CellType>) -> Result<
    Seq<CellType>,
    LevelError,
>
    decreases h - y,
{
    if y >= h {
        Ok(acc)
    } else {
        let p = 2 + y;
        if p >= ls.len() {
            Err(LevelError::Missing(LevelField::Row, p as usize))
        } else {
            let t = tokens_of(ls[p]);
            if t.len() < w {
                Err(LevelError::Malformed(LevelField::Row, p as usize))
            } else {
                rows_acc(ls, w, h, y + 1, acc + row_cells(t, w))
            }
        }
    }
}

/// The description of an exercise from line `p` on: non-empty lines joined
/// by newlines, closed by the first empty line.
pub open spec fn description_acc(ls: Seq<Seq<char>>, p: int, acc: Seq<char>, first: bool) -> Result<
    (Seq<char>, int),
    LevelError,
>
    decreases ls.len() - p,
{
    if p >= ls.len() {
        Err(LevelError::Missing(LevelField::Description, p as usize))
    } else if ls[p].len() == 0 {
        if first {
            Err(LevelError::Missing(LevelField::Description, p as usize))
        } else {
            Ok((acc, p + 1))
        }
    } else {
        description_acc(
            ls,
            p + 1,
            if first {
                ls[p]
            } else {
                acc + seq!['\n'] + ls[p]
            },
            false,
        )
    }
}

/// An injection line: instant, x, y.
pub open spec fn spawn_line(ls: Seq<Seq<char>>, p: int) -> Result<(Point, usize), LevelError> {
    if p >= ls.len() {
        Err(LevelError::Missing(LevelField::Spawn, p as usize))
    } else {
        let t = tokens_of(ls[p]);
        match number_token(t, 0, LevelField::SpawnInstant, p) {
            Err(e) => Err(e),
            Ok(instant) => match number_token(t, 1, LevelField::SpawnX, p) {
                Err(e) => Err(e),
                Ok(x) => match number_token(t, 2, LevelField::SpawnY, p) {
                    Err(e) => Err(e),
                    Ok(y) => Ok((Point(x, y), instant)),
                },
            },
        }
    }
}

/// An output line: from, until, x, y.
pub open spec fn output_line(ls: Seq<Seq<char>>, p: int) -> Result<(Point, usize, usize), LevelError> {
    if p >= ls.len() {
        Err(LevelError::Missing(LevelField::Output, p as usize))
    } else {
        let t = tokens_of(ls[p]);
        match number_token(t, 0, LevelField::OutputFrom, p) {
            Err(e) => Err(e),
            Ok(from) => match number_token(t, 1, LevelField::OutputUntil, p) {
                Err(e) => Err(e),
                Ok(until) => match number_token(t, 2, LevelField::OutputX, p) {
                    Err(e) => Err(e),
                    Ok(x) => match number_token(t, 3, LevelField::OutputY, p) {
                        Err(e) => Err(e),
                        Ok(y) => Ok((Point(x, y), from, until)),
                    },
                },
            },
        }
    }
}

/// `k` injection lines from line `p` on, appended to `acc`.
pub open spec fn spawns_acc(ls: Seq<Seq<char>>, p: int, k: int, acc: Seq<(Point, usize)>) -> Result<
    Seq<(Point, usize)>,
    LevelError,
>
    decreases k,
{
    if k <= 0 {
        Ok(acc)
    } else {
        match spawn_line(ls, p) {
            Err(e) => Err(e),
            Ok(s) => spawns_acc(ls, p + 1, k - 1, acc.push(s)),
        }
    }
}

/// `k` output lines from line `p` on, appended to `acc`.
pub open spec fn outputs_acc(
    ls: Seq<Seq<char>>,
    p: int,
    k: int,
    acc: Seq<(Point, usize, usize)>,
) -> Result<Seq<(Point, usize, usize)>, LevelError>
    decreases k,
{
    if k <= 0 {
        Ok(acc)
    } else {
        match output_line(ls, p) {
            Err(e) => Err(e),
            Ok(o) => outputs_acc(ls, p + 1, k - 1, acc.push(o)),
        }
    }
}

/// One exercise from line `p` on, with the line after it.
pub open spec fn exercise_spec(ls: Seq<Seq<char>>, p: int) -> Result<(ExerciseModel, int), LevelError> {
    match description_acc(ls, p, Seq::empty(), true) {
        Err(e) => Err(e),
        Ok((description, p1)) => match number_line(ls, p1, LevelField::Timeout) {
            Err(e) => Err(e),
            Ok(timeout) => match number_line(ls, p1 + 1, LevelField::SpawnCount) {
                Err(e) => Err(e),
                Ok(ns) => match spawns_acc(ls, p1 + 2, ns as int, Seq::empty()) {
                    Err(e) => Err(e),
                    Ok(spawns) => {
                        let p2 = p1 + 2 + ns;
                        match number_line(ls, p2, LevelField::OutputCount) {
                            Err(e) => Err(e),
                            Ok(no) => match outputs_acc(ls, p2 + 1, no as int, Seq::empty()) {
                                Err(e) => Err(e),
                                Ok(outputs) => Ok(
                                    ((description, timeout, spawns, outputs), p2 + 1 + no),
                                ),
                            },
                        }
                    },
                },
            },
        },
    }
}

/// `k` exercises from line `p` on, appended to `acc`.
pub open spec fn exercises_acc(ls: Seq<Seq<char>>, p: int, k: int, acc: Seq<ExerciseModel>) -> Result<
    Seq<ExerciseModel>,
    LevelError,
>
    decreases k,
{
    if k <= 0 {
        Ok(acc)
    } else {
        match exercise_spec(ls, p) {
            Err(e) => Err(e),
            Ok((ex, p1)) => exercises_acc(ls, p1, k - 1, acc.push(ex)),
        }
    }
}

/// The level that the lines of a level file describe, or the first field
/// that is missing or malformed.
pub open spec fn level_spec(ls: Seq<Seq<char>>) -> Result<LevelModel, LevelError> {
    match size_spec(ls) {
        Err(e) => Err(e),
        Ok((w, h)) => match flag_spec(ls) {
            Err(e) => Err(e),
            Ok(flag) => match rows_acc(ls, w as int, h as int, 0, Seq::empty()) {
                Err(e) => Err(e),
                Ok(map) => match number_line(ls, 2 + h, LevelField::ExerciseCount) {
                    Err(e) => Err(e),
                    Ok(n) => match exercises_acc(ls, 3 + h, n as int, Seq::empty()) {
                        Err(e) => Err(e),
                        Ok(exercises) => Ok(((w, h), map, flag, exercises)),
                    },
                },
            },
        },
    }
}

/// The views of a list of character vectors.
pub open spec fn views(v: Seq<Vec<char>>) -> Seq<Seq<char>> {
    v.map_values(|x: Vec<char>| x@)
}

/// The characters of `s`, in order.
pub fn chars_of(s: &str) -> (r: Vec<char>)
    ensures
        r@ == s@,
{
    let mut r: Vec<char> = Vec::new();
    let mut it = s.chars();
    loop
        invariant
            it.remaining() == s@.subrange(r@.len() as int, s@.len() as int),
            r@ == s@.subrange(0, r@.len() as int),
            r@.len() <= s@.len(),
        ensures
            r@ == s@,
        decreases s@.len() - r@.len(),
    {
        match it.next() {
            Some(c) => {
                r.push(c);
            },
            None => {
                assert(r@ =~= s@);
                break ;
            },
        }
    }
    r
}

/// The views of a list of string slices.
pub open spec fn str_views(v: Seq<&str>) -> Seq<Seq<char>> {
    v.map_values(|x: &str| x@)
}

/// The lines of a text (see [`lines_of`]), as slices of it.
pub fn split_lines<'a>(s: &'a str) -> (r: Vec<&'a str>)
    ensures
        str_views(r@) == lines_of(s@),
{
    let cs = chars_of(s);
    let mut acc: Vec<&'a str> = Vec::new();
    let mut start: usize = 0;
    let mut i: usize = 0;
    assert(str_views(acc@) =~= Seq::<Seq<char>>::empty());
    assert(s@.subrange(0, 0) =~= Seq::<char>::empty());
    while i < cs.len()
        invariant
            cs@ == s@,
            start <= i <= s@.len(),
            lines_acc(s@, i as int, s@.subrange(start as int, i as int), str_views(acc@))
                == lines_of(s@),
        decreases s@.len() - i,
    {
        if cs[i] == '\n' {
            let end = if i > start && cs[i - 1] == '\r' { i - 1 } else { i };
            let line = s.substring_char(start, end);
            assert(line@ =~= trim_cr(s@.subrange(start as int, i as int)));
            proof {
                assert(str_views(acc@.push(line)) =~= str_views(acc@).push(line@));
            }
            acc.push(line);
            start = i + 1;
            assert(s@.subrange(start as int, i + 1) =~= Seq::<char>::empty());
        } else {
            assert(s@.subrange(start as int, i + 1) =~= s@.subrange(start as int, i as int).push(
                s@[i as int],
            ));
        }
        i = i + 1;
    }
    if start < cs.len() {
        let line = s.substring_char(start, cs.len());
        proof {
            assert(str_views(acc@.push(line)) =~= str_views(acc@).push(line@));
        }
        acc.push(line);
    }
    acc
}

/// The space-separated tokens of a line (see [`tokens_of`]).
pub fn split_tokens(l: &Vec<char>) -> (r: Vec<Vec<char>>)
    ensures
        views(r@) == tokens_of(l@),
        r@.len() >= 1,
{
    let mut acc: Vec<Vec<char>> = Vec::new();
    let mut cur: Vec<char> = Vec::new();
    let mut i: usize = 0;
    proof {
        lemma_split_nonempty(l@, 0, Seq::empty(), Seq::empty());
    }
    assert(views(acc@) =~= Seq::<Seq<char>>::empty());
    assert(cur@ =~= Seq::<char>::empty());
    while i < l.len()
        invariant
            i <= l@.len(),
            split_acc(l@, i as int, cur@, views(acc@)) == tokens_of(l@),
        decreases l@.len() - i,
    {
        if l[i] == ' ' {
            proof {
                assert(views(acc@.push(cur)) =~= views(acc@).push(cur@));
            }
            acc.push(cur);
            cur = Vec::new();
            assert(cur@ =~= Seq::<char>::empty());
        } else {
            cur.push(l[i]);
        }
        i = i + 1;
    }
    proof {
        assert(views(acc@.push(cur)) =~= views(acc@).push(cur@));
    }
    acc.push(cur);
    acc
}

pub proof fn lemma_split_nonempty(l: Seq<char>, i: int, cur: Seq<char>, acc: Seq<Seq<char>>)
    ensures
        split_acc(l, i, cur, acc).len() >= acc.len() + 1,
    decreases l.len() - i,
{
    if i < l.len() {
        if l[i] == ' ' {
            lemma_split_nonempty(l, i + 1, Seq::empty(), acc.push(cur));
        } else {
            lemma_split_nonempty(l, i + 1, cur.push(l[i]), acc);
        }
    }
}

/// A longer string of digits writes a number at least as large.
pub proof fn lemma_digits_monotone(d: Seq<char>, k: int)
    requires
        0 <= k <= d.len(),
    ensures
        digits_value(d.subrange(0, k)) <= digits_value(d),
    decreases d.len(),
{
    if k < d.len() {
        lemma_digits_monotone(d.drop_last(), k);
        assert(d.drop_last().subrange(0, k) =~= d.subrange(0, k));
    } else {
        assert(d.subrange(0, k) =~= d);
    }
}

/// Reads a token as a decimal `usize` (see [`usize_value`]).
pub fn parse_usize(t: &Vec<char>) -> (r: Option<usize>)
    ensures
        r == usize_value(t@),
{
    let n = t.len();
    let start: usize = if n > 0 && t[0] == '+' { 1 } else { 0 };
    let ghost d = unsigned_digits(t@);
    assert(d =~= t@.subrange(start as int, n as int));
    if start == n {
        return None;
    }
    let mut v: usize = 0;
    let mut i: usize = start;
    while i < n
        invariant
            start <= i <= n,
            n == t@.len(),
            d == t@.subrange(start as int, n as int),
            d == unsigned_digits(t@),
            forall|j: int| 0 <= j < i - start ==> is_digit(#[trigger] d[j]),
            v == digits_value(d.subrange(0, i - start)),
        decreases n - i,
    {
        let c = t[i];
        if !('0' <= c && c <= '9') {
            assert(!is_digit(d[i - start]));
            assert(!(forall|j: int| 0 <= j < d.len() ==> is_digit(#[trigger] d[j])));
            return None;
        }
        let dg = (c as u32 - '0' as u32) as usize;
        assert(d.subrange(0, i - start + 1).drop_last() =~= d.subrange(0, i - start));
        assert(digits_value(d.subrange(0, i - start + 1)) == v * 10 + dg);
        if v > (usize::MAX - dg) / 10 {
            assert(v * 10 + dg > usize::MAX) by (nonlinear_arith)
                requires
                    v > (usize::MAX - dg) / 10,
                    dg <= 9,
            ;
            proof {
                lemma_digits_monotone(d, i - start + 1);
            }
            assert(digits_value(d) > usize::MAX);
            return None;
        }
        assert(v * 10 + dg <= usize::MAX) by (nonlinear_arith)
            requires
                v <= (usize::MAX - dg) / 10,
                dg <= 9,
        ;
        v = v * 10 + dg;
        i = i + 1;
    }
    assert(d.subrange(0, n - start) =~= d);
    Some(v)
}

/// Reads `true` or `false` (see [`bool_value`]).
pub fn parse_bool(t: &Vec<char>) -> (r: Option<bool>)
    ensures
        r == bool_value(t@),
{
    if t.len() == 4 && t[0] == 't' && t[1] == 'r' && t[2] == 'u' && t[3] == 'e' {
        assert(t@ =~= seq!['t', 'r', 'u', 'e']);
        Some(true)
    } else if t.len() == 5 && t[0] == 'f' && t[1] == 'a' && t[2] == 'l' && t[3] == 's' && t[4]
        == 'e' {
        assert(t@ =~= seq!['f', 'a', 'l', 's', 'e']);
        Some(false)
    } else {
        assert(t@ != seq!['t', 'r', 'u', 'e'] && t@ != seq!['f', 'a', 'l', 's', 'e']) by {
            if t@ == seq!['t', 'r', 'u', 'e'] {
                assert(t@.len() == 4 && t@[0] == 't' && t@[1] == 'r' && t@[2] == 'u' && t@[3] == 'e');
            }
            if t@ == seq!['f', 'a', 'l', 's', 'e'] {
                assert(t@.len() == 5 && t@[0] == 'f' && t@[1] == 'a' && t@[2] == 'l' && t@[3] == 's' && t@[4] == 'e');
            }
        }
        None
    }
}

/// The cell that a token of a row stands for (see [`cell_of`]).
pub fn parse_cell(t: &Vec<char>) -> (r: CellType)
    ensures
        r == cell_of(t@),
{
    if t.len() == 1 {
        let c = t[0];
        assert(t@ =~= seq![c]);
        if c == 'a' {
            CellType::ELECTRON(false)
        } else if c == 'w' {
            CellType::WIRE(false)
        } else if c == 'A' {
            CellType::ELECTRON(true)
        } else if c == 'W' {
            CellType::WIRE(true)
        } else if c == 'E' {
            CellType::EMPTY(true)
        } else {
            assert(seq![c] != seq!['a'] && seq![c] != seq!['w'] && seq![c] != seq!['A']
                && seq![c] != seq!['W'] && seq![c] != seq!['E']) by {
                assert(seq![c][0] == c);
                assert(seq!['a'][0] == 'a');
                assert(seq!['w'][0] == 'w');
                assert(seq!['A'][0] == 'A');
                assert(seq!['W'][0] == 'W');
                assert(seq!['E'][0] == 'E');
            }
            CellType::EMPTY(false)
        }
    } else {
        assert(t@ != seq!['a'] && t@ != seq!['w'] && t@ != seq!['A'] && t@ != seq!['W'] && t@
            != seq!['E']) by {
            assert(seq!['a'].len() == 1);
            assert(seq!['w'].len() == 1);
            assert(seq!['A'].len() == 1);
            assert(seq!['W'].len() == 1);
            assert(seq!['E'].len() == 1);
        }
        CellType::EMPTY(false)
    }
}

/// The tokens of a line.
pub fn line_tokens(line: &str) -> (r: Vec<Vec<char>>)
    ensures
        views(r@) == tokens_of(line@),
        r@.len() >= 1,
{
    let cs = chars_of(line);
    split_tokens(&cs)
}

/// A line that holds one number (see [`number_line`]).
pub fn read_number_line(ls: &Vec<&str>, p: usize, f: LevelField) -> (r: Result<usize, LevelError>)
    ensures
        r == number_line(str_views(ls@), p as int, f),
{
    if p >= ls.len() {
        Err(LevelError::Missing(f, p))
    } else {
        let cs = chars_of(ls[p]);
        match parse_usize(&cs) {
            Some(v) => Ok(v),
            None => Err(LevelError::Malformed(f, p)),
        }
    }
}

/// Token `k` of a line, read as a number (see [`number_token`]).
pub fn read_number_token(t: &Vec<Vec<char>>, k: usize, f: LevelField, p: usize) -> (r: Result<
    usize,
    LevelError,
>)
    ensures
        r == number_token(views(t@), k as int, f, p as int),
{
    if k >= t.len() {
        Err(LevelError::Missing(f, p))
    } else {
        match parse_usize(&t[k]) {
            Some(v) => Ok(v),
            None => Err(LevelError::Malformed(f, p)),
        }
    }
}

/// The size line (see [`size_spec`]).
pub fn read_size(ls: &Vec<&str>) -> (r: Result<(usize, usize), LevelError>)
    ensures
        r == size_spec(str_views(ls@)),
{
    if ls.len() == 0 {
        return Err(LevelError::Missing(LevelField::Size, 0));
    }
    let t = line_tokens(ls[0]);
    let w = match read_number_token(&t, 0, LevelField::Width, 0) {
        Ok(w) => w,
        Err(e) => {
            return Err(e);
        },
    };
    let h = match read_number_token(&t, 1, LevelField::Height, 0) {
        Ok(h) => h,
        Err(e) => {
            return Err(e);
        },
    };
    if w > 0 && h > usize::MAX / w {
        assert(w * h > usize::MAX) by (nonlinear_arith)
            requires
                w > 0,
                h > usize::MAX / w,
        ;
        return Err(LevelError::Malformed(LevelField::Size, 0));
    }
    assert(w * h <= usize::MAX) by (nonlinear_arith)
        requires
            w == 0 || h <= usize::MAX / w,
    ;
    Ok((w, h))
}

/// The electron flag (see [`flag_spec`]).
pub fn read_flag(ls: &Vec<&str>) -> (r: Result<bool, LevelError>)
    ensures
        r == flag_spec(str_views(ls@)),
{
    if ls.len() < 2 {
        return Err(LevelError::Missing(LevelField::ElectronFlag, 1));
    }
    let cs = chars_of(ls[1]);
    match parse_bool(&cs) {
        Some(b) => Ok(b),
        None => Err(LevelError::Malformed(LevelField::ElectronFlag, 1)),
    }
}

/// The rows of the grid (see [`rows_acc`]).
pub fn read_rows(ls: &Vec<&str>, w: usize, h: usize) -> (r: Result<Vec<CellType>, LevelError>)
    requires
        w * h <= usize::MAX,
        ls@.len() >= 2,
    ensures
        match rows_acc(str_views(ls@), w as int, h as int, 0, Seq::empty()) {
            Ok(m) => r matches Ok(v) && v@ == m,
            Err(e) => r == Err::<Vec<CellType>, LevelError>(e),
        },
        r matches Ok(_) ==> 2 + h <= ls@.len(),
{
    let ghost L = str_views(ls@);
    let mut map: Vec<CellType> = Vec::new();
    let mut y: usize = 0;
    let mut p: usize = 2;
    while y < h
        invariant
            L == str_views(ls@),
            y <= h,
            p == 2 + y,
            p <= ls@.len(),
            map@.len() == y * w,
            w * h <= usize::MAX,
            rows_acc(L, w as int, h as int, y as int, map@) == rows_acc(
                L,
                w as int,
                h as int,
                0,
                Seq::empty(),
            ),
        decreases h - y,
    {
        if p >= ls.len() {
            return Err(LevelError::Missing(LevelField::Row, p));
        }
        let t = line_tokens(ls[p]);
        if t.len() < w {
            return Err(LevelError::Malformed(LevelField::Row, p));
        }
        let ghost m0 = map@;
        let mut j: usize = 0;
        assert((y + 1) * w <= w * h) by (nonlinear_arith)
            requires
                y < h,
        ;
        assert((y + 1) * w == y * w + w) by (nonlinear_arith);
        while j < w
            invariant
                j <= w,
                w <= t@.len(),
                map@.len() == m0.len() + j,
                m0.len() + w <= usize::MAX,
                map@ == m0 + row_cells(views(t@), w as int).subrange(0, j as int),
            decreases w - j,
        {
            let c = parse_cell(&t[j]);
            map.push(c);
            j = j + 1;
            assert(map@ =~= m0 + row_cells(views(t@), w as int).subrange(0, j as int));
        }
        assert(row_cells(views(t@), w as int).subrange(0, w as int) =~= row_cells(views(t@), w as int));
        y = y + 1;
        p = p + 1;
    }
    Ok(map)
}

/// The description of an exercise (see [`description_acc`]), with the line
/// after it.
pub fn read_description(ls: &Vec<&str>, p: usize) -> (r: Result<(String, usize), LevelError>)
    requires
        p <= ls@.len(),
    ensures
        match description_acc(str_views(ls@), p as int, Seq::empty(), true) {
            Ok((d, q)) => r matches Ok((text, q2)) && text@ == d && q2 == q && q <= ls@.len(),
            Err(e) => r == Err::<(String, usize), LevelError>(e),
        },
{
    let ghost L = str_views(ls@);
    let mut text = String::new();
    let mut first = true;
    let mut q = p;
    while q < ls.len()
        invariant
            L == str_views(ls@),
            p <= q <= ls@.len(),
            description_acc(L, q as int, text@, first) == description_acc(
                L,
                p as int,
                Seq::empty(),
                true,
            ),
        decreases ls@.len() - q,
    {
        let line = ls[q];
        if line.is_empty() {
            if first {
                return Err(LevelError::Missing(LevelField::Description, q));
            } else {
                return Ok((text, q + 1));
            }
        }
        assert(L[q as int] == line@);
        let ghost before = text@;
        if first {
            text = String::from_str(line);
        } else {
            proof {
                reveal_strlit("\n");
            }
            text.append("\n");
            text.append(line);
            assert(text@ =~= before + seq!['\n'] + L[q as int]);
        }
        first = false;
        q = q + 1;
    }
    Err(LevelError::Missing(LevelField::Description, q))
}

/// An injection line (see [`spawn_line`]).
pub fn read_spawn_line(ls: &Vec<&str>, p: usize) -> (r: Result<(Point, usize), LevelError>)
    ensures
        r == spawn_line(str_views(ls@), p as int),
{
    if p >= ls.len() {
        return Err(LevelError::Missing(LevelField::Spawn, p));
    }
    let t = line_tokens(ls[p]);
    let instant = match read_number_token(&t, 0, LevelField::SpawnInstant, p) {
        Ok(v) => v,
        Err(e) => {
            return Err(e);
        },
    };
    let x = match read_number_token(&t, 1, LevelField::SpawnX, p) {
        Ok(v) => v,
        Err(e) => {
            return Err(e);
        },
    };
    let y = match read_number_token(&t, 2, LevelField::SpawnY, p) {
        Ok(v) => v,
        Err(e) => {
            return Err(e);
        },
    };
    Ok((Point(x, y), instant))
}

/// An output line (see [`output_line`]).
pub fn read_output_line(ls: &Vec<&str>, p: usize) -> (r: Result<(Point, usize, usize), LevelError>)
    ensures
        r == output_line(str_views(ls@), p as int),
{
    if p >= ls.len() {
        return Err(LevelError::Missing(LevelField::Output, p));
    }
    let t = line_tokens(ls[p]);
    let from = match read_number_token(&t, 0, LevelField::OutputFrom, p) {
        Ok(v) => v,
        Err(e) => {
            return Err(e);
        },
    };
    let until = match read_number_token(&t, 1, LevelField::OutputUntil, p) {
        Ok(v) => v,
        Err(e) => {
            return Err(e);
        },
    };
    let x = match read_number_token(&t, 2, LevelField::OutputX, p) {
        Ok(v) => v,
        Err(e) => {
            return Err(e);
        },
    };
    let y = match read_number_token(&t, 3, LevelField::OutputY, p) {
        Ok(v) => v,
        Err(e) => {
            return Err(e);
        },
    };
    Ok((Point(x, y), from, until))
}

/// `k` injection lines from line `p` on (see [`spawns_acc`]).
pub fn read_spawns(ls: &Vec<&str>, p: usize, k: usize) -> (r: Result<(Vec<(Point, usize)>, usize), LevelError>)
    requires
        p <= ls@.len(),
    ensures
        match spawns_acc(str_views(ls@), p as int, k as int, Seq::empty()) {
            Ok(v) => r matches Ok((s, q)) && s@ == v && q == p + k && q <= ls@.len(),
            Err(e) => r == Err::<(Vec<(Point, usize)>, usize), LevelError>(e),
        },
{
    let n = ls.len();
    let ghost L = str_views(ls@);
    let mut acc: Vec<(Point, usize)> = Vec::new();
    let mut j: usize = 0;
    let mut q = p;
    while j < k
        invariant
            L == str_views(ls@),
            j <= k,
            q == p + j,
            q <= ls@.len(),
            n == ls@.len(),
            spawns_acc(L, q as int, (k - j) as int, acc@) == spawns_acc(
                L,
                p as int,
                k as int,
                Seq::empty(),
            ),
        decreases k - j,
    {
        match read_spawn_line(ls, q) {
            Ok(s) => {
                acc.push(s);
            },
            Err(e) => {
                return Err(e);
            },
        }
        j = j + 1;
        q = q + 1;
    }
    Ok((acc, q))
}

/// `k` output lines from line `p` on (see [`outputs_acc`]).
pub fn read_outputs(ls: &Vec<&str>, p: usize, k: usize) -> (r: Result<
    (Vec<(Point, usize, usize)>, usize),
    LevelError,
>)
    requires
        p <= ls@.len(),
    ensures
        match outputs_acc(str_views(ls@), p as int, k as int, Seq::empty()) {
            Ok(v) => r matches Ok((o, q)) && o@ == v && q == p + k && q <= ls@.len(),
            Err(e) => r == Err::<(Vec<(Point, usize, usize)>, usize), LevelError>(e),
        },
{
    let n = ls.len();
    let ghost L = str_views(ls@);
    let mut acc: Vec<(Point, usize, usize)> = Vec::new();
    let mut j: usize = 0;
    let mut q = p;
    while j < k
        invariant
            L == str_views(ls@),
            j <= k,
            q == p + j,
            q <= ls@.len(),
            n == ls@.len(),
            outputs_acc(L, q as int, (k - j) as int, acc@) == outputs_acc(
                L,
                p as int,
                k as int,
                Seq::empty(),
            ),
        decreases k - j,
    {
        match read_output_line(ls, q) {
            Ok(o) => {
                acc.push(o);
            },
            Err(e) => {
                return Err(e);
            },
        }
        j = j + 1;
        q = q + 1;
    }
    Ok((acc, q))
}

/// One exercise from line `p` on (see [`exercise_spec`]), with the line
/// after it.
pub fn read_exercise(ls: &Vec<&str>, p: usize) -> (r: Result<(ExerciseData, usize), LevelError>)
    requires
        p <= ls@.len(),
    ensures
        match exercise_spec(str_views(ls@), p as int) {
            Ok((m, q)) => r matches Ok((e, q2)) && e@ == m && q2 == q && q <= ls@.len(),
            Err(e) => r == Err::<(ExerciseData, usize), LevelError>(e),
        },
{
    let n = ls.len();
    let (description, p1) = match read_description(ls, p) {
        Ok(d) => d,
        Err(e) => {
            return Err(e);
        },
    };
    let timeout = match read_number_line(ls, p1, LevelField::Timeout) {
        Ok(v) => v,
        Err(e) => {
            return Err(e);
        },
    };
    let ns = match read_number_line(ls, p1 + 1, LevelField::SpawnCount) {
        Ok(v) => v,
        Err(e) => {
            return Err(e);
        },
    };
    let (spawns, p2) = match read_spawns(ls, p1 + 2, ns) {
        Ok(v) => v,
        Err(e) => {
            return Err(e);
        },
    };
    let no = match read_number_line(ls, p2, LevelField::OutputCount) {
        Ok(v) => v,
        Err(e) => {
            return Err(e);
        },
    };
    let (outputs, p3) = match read_outputs(ls, p2 + 1, no) {
        Ok(v) => v,
        Err(e) => {
            return Err(e);
        },
    };
    Ok((ExerciseData { description, timeout, spawns, outputs }, p3))
}

/// The models of a list of exercises.
pub open spec fn exercise_models(v: Seq<ExerciseData>) -> Seq<ExerciseModel> {
    v.map_values(|e: ExerciseData| e@)
}

/// `k` exercises from line `p` on (see [`exercises_acc`]).
pub fn read_exercises(ls: &Vec<&str>, p: usize, k: usize) -> (r: Result<Vec<ExerciseData>, LevelError>)
    requires
        p <= ls@.len(),
    ensures
        match exercises_acc(str_views(ls@), p as int, k as int, Seq::empty()) {
            Ok(v) => r matches Ok(e) && exercise_models(e@) == v,
            Err(e) => r == Err::<Vec<ExerciseData>, LevelError>(e),
        },
{
    let ghost L = str_views(ls@);
    let mut acc: Vec<ExerciseData> = Vec::new();
    let mut j: usize = 0;
    let mut q = p;
    assert(exercise_models(acc@) =~= Seq::<ExerciseModel>::empty());
    while j < k
        invariant
            L == str_views(ls@),
            j <= k,
            q <= ls@.len(),
            exercises_acc(L, q as int, (k - j) as int, exercise_models(acc@)) == exercises_acc(
                L,
                p as int,
                k as int,
                Seq::empty(),
            ),
        decreases k - j,
    {
        match read_exercise(ls, q) {
            Ok((e, q1)) => {
                proof {
                    assert(exercise_models(acc@.push(e)) =~= exercise_models(acc@).push(e@));
                }
                acc.push(e);
                q = q1;
            },
            Err(e) => {
                return Err(e);
            },
        }
        j = j + 1;
    }
    Ok(acc)
}

impl View for World {
    type V = LevelModel;

    open spec fn view(&self) -> LevelModel {
        (self.size, self.map@, self.electron_available, exercise_models(self.exercises@))
    }
}

impl World {
    /// Parses a level file: the level that its lines describe (see
    /// [`level_spec`]), or the first field that is missing or malformed.
    pub fn from_string(s: String) -> (r: Result<World, LevelError>)
        ensures
            match level_spec(lines_of(s@)) {
                Ok(m) => r matches Ok(world) && world@ == m && world.wf(),
                Err(e) => r == Err::<World, LevelError>(e),
            },
    {
        let ls = split_lines(s.as_str());
        let n = ls.len();
        let (w, h) = match read_size(&ls) {
            Ok(size) => size,
            Err(e) => {
                return Err(e);
            },
        };
        let electron_available = match read_flag(&ls) {
            Ok(b) => b,
            Err(e) => {
                return Err(e);
            },
        };
        let map = match read_rows(&ls, w, h) {
            Ok(m) => m,
            Err(e) => {
                return Err(e);
            },
        };
        proof {
            lemma_rows_len(str_views(ls@), w as int, h as int, 0, Seq::empty());
        }
        let count = match read_number_line(&ls, 2 + h, LevelField::ExerciseCount) {
            Ok(n) => n,
            Err(e) => {
                return Err(e);
            },
        };
        let exercises = match read_exercises(&ls, 3 + h, count) {
            Ok(v) => v,
            Err(e) => {
                return Err(e);
            },
        };
        Ok(World { size: (w, h), map, electron_available, exercises })
    }
}

/// The rows read for a `w` by `h` grid hold `w * h` cells.
pub proof fn lemma_rows_len(ls: Seq<Seq<char>>, w: int, h: int, y: int, acc: Seq<CellType>)
    requires
        0 <= y <= h,
        0 <= w,
        acc.len() == y * w,
    ensures
        rows_acc(ls, w, h, y, acc) matches Ok(m) ==> m.len() == w * h,
    decreases h - y,
{
    if y < h {
        let p = 2 + y;
        if p < ls.len() {
            let t = tokens_of(ls[p]);
            if t.len() >= w {
                assert((y + 1) * w == y * w + w) by (nonlinear_arith);
                lemma_rows_len(ls, w, h, y + 1, acc + row_cells(t, w));
            }
        }
    } else {
        assert(y * w == w * h) by (nonlinear_arith)
            requires
                y == h,
        ;
    }
}

} // verus!
