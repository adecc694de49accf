//! Text layout helpers: cutting a line at a width, splitting it into words,
//! and spreading words over a width.
use vstd::prelude::*;
use crate::level::{chars_of, str_views};

verus! {

broadcast use vstd::string::group_string_axioms;

/// Characters after which a line may be cut.
pub open spec fn is_special(c: char) -> bool {
    c == '.' || c == ',' || c == '!' || c == '?' || c == ':' || c == ';' || c == ']' || c == ')'
        || c == '}' || c == '>' || c == '"' || c == '\'' || c == '%'
}

/// Punctuation that ends a word.
pub open spec fn is_divided_mark(c: char) -> bool {
    c == ',' || c == '.' || c == '!' || c == '?' || c == ':' || c == ';' || c == ']' || c == ')'
        || c == '}' || c == '>'
}

pub fn special(c: char) -> (r: bool)
    ensures
        r == is_special(c),
{
    c == '.' || c == ',' || c == '!' || c == '?' || c == ':' || c == ';' || c == ']' || c == ')'
        || c == '}' || c == '>' || c == '"' || c == '\'' || c == '%'
}

pub fn divided_mark(c: char) -> (r: bool)
    ensures
        r == is_divided_mark(c),
{
    c == ',' || c == '.' || c == '!' || c == '?' || c == ':' || c == ';' || c == ']' || c == ')'
        || c == '}' || c == '>'
}

/// Length of the part of `t[..k]` that ends at its last cut point: before
/// the last space, or after the last special character, whichever comes
/// last; none when `t[..k]` has neither.
pub open spec fn cut_before(t: Seq<char>, k: int) -> Option<int>
    decreases k,
{
    if k <= 0 {
        None
    } else if t[k - 1] == ' ' {
        Some(k - 1)
    } else if is_special(t[k - 1]) {
        Some(k)
    } else {
        cut_before(t, k - 1)
    }
}

pub proof fn lemma_cut_before_bound(t: Seq<char>, k: int)
    requires
        0 <= k <= t.len(),
    ensures
        cut_before(t, k) matches Some(l) ==> 0 <= l <= k,
        cut_before(t, k) matches Some(l) && l == 0 ==> t[0] == ' ',
    decreases k,
{
    if k > 0 && t[k - 1] != ' ' && !is_special(t[k - 1]) {
        lemma_cut_before_bound(t, k - 1);
    }
}

/// The text up to its last cut point (see [`cut_before`]).
pub fn trim_string_until_splitter(text: &str) -> (r: Option<&str>)
    ensures
        match cut_before(text@, text@.len() as int) {
            Some(l) => r matches Some(s) && s@ == text@.subrange(0, l),
            None => r is None,
        },
{
    let cs = chars_of(text);
    let mut k = cs.len();
    while k > 0
        invariant
            cs@ == text@,
            k <= cs@.len(),
            cut_before(text@, k as int) == cut_before(text@, text@.len() as int),
        decreases k,
    {
        let c = cs[k - 1];
        if c == ' ' {
            return Some(text.substring_char(0, k - 1));
        }
        if special(c) {
            return Some(text.substring_char(0, k));
        }
        k = k - 1;
    }
    None
}

/// Whether a word ends after character `k`: at a space, or at a mark that
/// no other mark follows.
pub open spec fn breaks_after(t: Seq<char>, k: int) -> bool {
    t[k] == ' ' || (is_divided_mark(t[k]) && !is_divided_mark(t[k + 1]))
}

/// `acc` with `seg` added, unless `seg` is a lone space.
pub open spec fn keep_word(acc: Seq<Seq<char>>, seg: Seq<char>) -> Seq<Seq<char>> {
    if seg == seq![' '] {
        acc
    } else {
        acc.push(seg)
    }
}

/// Words of `t` from the break candidate at `k` on, the current word
/// starting at `start`.
pub open spec fn words_acc(t: Seq<char>, k: int, start: int, acc: Seq<Seq<char>>) -> Seq<Seq<char>>
    decreases t.len() - k,
{
    if k >= t.len() {
        if start < t.len() {
            keep_word(acc, t.subrange(start, t.len() as int))
        } else {
            acc
        }
    } else if breaks_after(t, k - 1) {
        words_acc(t, k + 1, k, keep_word(acc, t.subrange(start, k)))
    } else {
        words_acc(t, k + 1, start, acc)
    }
}

/// The words of a text; an empty text has one empty word.
pub open spec fn words_of(t: Seq<char>) -> Seq<Seq<char>> {
    if t.len() == 0 {
        seq![t]
    } else {
        words_acc(t, 1, 0, Seq::empty())
    }
}

/// Splits a text into words (see [`words_of`]); each word keeps the space or
/// marks that end it.
pub fn split_text_into_words(text: &str) -> (r: Vec<&str>)
    ensures
        str_views(r@) == words_of(text@),
{
    let cs = chars_of(text);
    let n = cs.len();
    if n == 0 {
        let r = vec![text];
        assert(str_views(r@) =~= seq![text@]);
        return r;
    }
    let mut acc: Vec<&str> = Vec::new();
    let mut start: usize = 0;
    let mut k: usize = 1;
    assert(str_views(acc@) =~= Seq::<Seq<char>>::empty());
    while k < n
        invariant
            cs@ == text@,
            n == cs@.len(),
            start < k <= n,
            words_acc(text@, k as int, start as int, str_views(acc@)) == words_of(text@),
        decreases n - k,
    {
        let c = cs[k - 1];
        let brk = c == ' ' || (divided_mark(c) && !divided_mark(cs[k]));
        if brk {
            let seg = text.substring_char(start, k);
            if !(seg.unicode_len() == 1 && seg.get_char(0) == ' ') {
                proof {
                    assert(seg@ != seq![' ']);
                    assert(str_views(acc@.push(seg)) =~= str_views(acc@).push(seg@));
                }
                acc.push(seg);
            } else {
                assert(seg@ =~= seq![' ']);
            }
            start = k;
        }
        k = k + 1;
    }
    if start < n {
        let seg = text.substring_char(start, n);
        if !(seg.unicode_len() == 1 && seg.get_char(0) == ' ') {
            proof {
                assert(seg@ != seq![' ']);
                assert(str_views(acc@.push(seg)) =~= str_views(acc@).push(seg@));
            }
            acc.push(seg);
        } else {
            assert(seg@ =~= seq![' ']);
        }
    }
    acc
}

/// Characters in a list of words.
pub open spec fn total_len(ws: Seq<Seq<char>>) -> nat
    decreases ws.len(),
{
    if ws.len() == 0 {
        0
    } else {
        total_len(ws.drop_last()) + ws.last().len()
    }
}

pub open spec fn spaces(n: nat) -> Seq<char> {
    Seq::new(n, |i: int| ' ')
}

/// Words `i..` appended to `acc`, each but the last followed by `per`
/// spaces, and by one more for the first `rem` gaps.
pub open spec fn spread_acc(ws: Seq<Seq<char>>, i: int, per: nat, rem: nat, acc: Seq<char>) -> Seq<
    char,
>
    decreases ws.len() - i,
{
    if i >= ws.len() {
        acc
    } else if i + 1 < ws.len() {
        spread_acc(
            ws,
            i + 1,
            per,
            rem,
            acc + ws[i] + spaces(per + if i < rem {
                1nat
            } else {
                0nat
            }),
        )
    } else {
        acc + ws[i]
    }
}

/// A text spread over `expected` characters: when it takes at least four
/// fifths of them, its words are laid out with the missing spaces shared
/// among the gaps, the first gaps taking one more; otherwise, or when it has
/// a single word or is long enough already, it stays as it is.
pub open spec fn stretched(t: Seq<char>, expected: nat) -> Seq<char> {
    if 5 * t.len() < 4 * expected {
        t
    } else {
        let ws = words_of(t);
        let cur = total_len(ws);
        if ws.len() <= 1 || cur >= expected {
            t
        } else {
            let gaps = (ws.len() - 1) as nat;
            let need = (expected - cur) as nat;
            spread_acc(ws, 0, need / gaps, need % gaps, Seq::empty())
        }
    }
}

pub proof fn lemma_total_len_prefix(ws: Seq<Seq<char>>, i: int)
    requires
        0 <= i <= ws.len(),
    ensures
        total_len(ws.subrange(0, i)) <= total_len(ws),
    decreases ws.len(),
{
    if i < ws.len() {
        lemma_total_len_prefix(ws.drop_last(), i);
        assert(ws.drop_last().subrange(0, i) =~= ws.subrange(0, i));
    } else {
        assert(ws.subrange(0, i) =~= ws);
    }
}

/// Spreads a text over `expected_length` characters (see [`stretched`]).
pub fn stretch_text(text: &str, expected_length: usize) -> (r: String)
    ensures
        r@ == stretched(text@, expected_length as nat),
{
    let count = text.unicode_len();
    if (count as u128) * 5 < (expected_length as u128) * 4 {
        return String::from_str(text);
    }
    assert(!(5 * text@.len() < 4 * expected_length));
    if expected_length == 0 {
        return String::from_str(text);
    }
    let words = split_text_into_words(text);
    let ghost ws = str_views(words@);
    let nw = words.len();
    let mut cur: usize = 0;
    let mut i: usize = 0;
    while i < nw
        invariant
            ws == str_views(words@),
            ws == words_of(text@),
            !(5 * text@.len() < 4 * expected_length),
            nw == words@.len(),
            i <= nw,
            cur == total_len(ws.subrange(0, i as int)),
            cur < expected_length,
        decreases nw - i,
    {
        let l = words[i].unicode_len();
        assert(ws.subrange(0, i + 1).drop_last() =~= ws.subrange(0, i as int));
        assert(ws[i as int] == words@[i as int]@);
        assert(total_len(ws.subrange(0, i + 1)) == cur + l);
        if l >= expected_length - cur {
            proof {
                lemma_total_len_prefix(ws, i + 1);
            }
            assert(total_len(ws) >= expected_length);
            return String::from_str(text);
        }
        cur = cur + l;
        i = i + 1;
    }
    assert(ws.subrange(0, nw as int) =~= ws);
    if nw <= 1 {
        return String::from_str(text);
    }
    let gaps = nw - 1;
    let need = expected_length - cur;
    let per = need / gaps;
    let mut rem = need % gaps;
    let ghost rem0 = rem;
    let mut result = String::new();
    proof {
        reveal_strlit(" ");
    }
    let mut i: usize = 0;
    assert(result@ =~= Seq::<char>::empty());
    while i < nw
        invariant
            ws == str_views(words@),
            nw == words@.len(),
            gaps == nw - 1,
            gaps > 0,
            i <= nw,
            rem0 == need % gaps,
            rem0 < gaps,
            rem == if i < rem0 { rem0 - i } else { 0 },
            " "@ == seq![' '],
            spread_acc(ws, i as int, per as nat, rem0 as nat, result@) == spread_acc(
                ws,
                0,
                per as nat,
                rem0 as nat,
                Seq::empty(),
            ),
        decreases nw - i,
    {
        let ghost before = result@;
        result.append(words[i]);
        if i < gaps {
            let ghost mid = result@;
            let mut k: usize = 0;
            while k < per
                invariant
                    k <= per,
                    " "@ == seq![' '],
                    result@ == mid + spaces(k as nat),
                decreases per - k,
            {
                result.append(" ");
                k = k + 1;
                assert(result@ =~= mid + spaces(k as nat));
            }
            if rem > 0 {
                result.append(" ");
                rem = rem - 1;
                assert(result@ =~= mid + spaces((per + 1) as nat));
            }
            assert(result@ =~= before + ws[i as int] + spaces(
                (per + if i < rem0 { 1usize } else { 0usize }) as nat,
            ));
        }
        i = i + 1;
    }
    result
}

/// The first position from `s` on that holds no space, or the length.
pub open spec fn first_non_space(t: Seq<char>, s: int) -> int
    decreases t.len() - s,
{
    if s >= t.len() {
        t.len() as int
    } else if t[s] != ' ' {
        s
    } else {
        first_non_space(t, s + 1)
    }
}

pub open spec fn tail_piece(t: Seq<char>, s: int, acc: Seq<Seq<char>>) -> Seq<Seq<char>> {
    if s < t.len() {
        acc.push(t.subrange(s, t.len() as int))
    } else {
        acc
    }
}

/// Pieces of `t` from `start` on, each of at most `limit` characters: while
/// more than `limit` characters are left, the next `limit` are cut at their
/// last cut point (see [`cut_before`]), or taken whole when they have none,
/// and the spaces after the piece are skipped; when only spaces are left
/// they make the last piece, and so does whatever remains.
pub open spec fn pieces_acc(t: Seq<char>, limit: int, start: int, acc: Seq<Seq<char>>) -> Seq<
    Seq<char>,
>
    decreases t.len() - start,
{
    if 0 <= start && t.len() - start > limit && limit > 0 {
        let part = t.subrange(start, start + limit);
        let cut = match cut_before(part, limit) {
            Some(l) => l,
            None => limit,
        };
        let s1 = start + cut;
        let j = first_non_space(t, s1);
        if start < j < t.len() {
            pieces_acc(t, limit, j, acc.push(t.subrange(start, s1)))
        } else {
            tail_piece(t, s1, acc.push(t.subrange(start, s1)))
        }
    } else {
        tail_piece(t, start, acc)
    }
}

pub open spec fn string_views(v: Seq<String>) -> Seq<Seq<char>> {
    v.map_values(|x: String| x@)
}

/// Cuts a line into pieces of at most `limit` characters (see
/// [`pieces_acc`]).
pub fn split_line_by_limit(text: &str, limit: usize) -> (r: Vec<String>)
    requires
        limit > 0 || text@.len() == 0,
    ensures
        string_views(r@) == pieces_acc(text@, limit as int, 0, Seq::empty()),
{
    let cs = chars_of(text);
    let n = cs.len();
    let ghost t = text@;
    let mut result: Vec<String> = Vec::new();
    let mut start: usize = 0;
    assert(string_views(result@) =~= Seq::<Seq<char>>::empty());
    while n - start > limit
        invariant_except_break
            pieces_acc(t, limit as int, start as int, string_views(result@)) == pieces_acc(
                t,
                limit as int,
                0,
                Seq::empty(),
            ),
        invariant
            cs@ == t,
            t == text@,
            n == t.len(),
            start <= n,
            limit > 0 || n == 0,
        ensures
            tail_piece(t, start as int, string_views(result@)) == pieces_acc(
                t,
                limit as int,
                0,
                Seq::empty(),
            ),
        decreases n - start,
    {
        let part = text.substring_char(start, start + limit);
        let cut = match trim_string_until_splitter(part) {
            Some(s) => s.unicode_len(),
            None => limit,
        };
        proof {
            lemma_cut_before_bound(part@, limit as int);
            if cut == 0 {
                assert(part@[0] == t[start as int]);
            }
        }
        let piece = String::from_str(text.substring_char(start, start + cut));
        proof {
            assert(string_views(result@.push(piece)) =~= string_views(result@).push(piece@));
        }
        result.push(piece);
        let s1 = start + cut;
        let mut j = s1;
        while j < n && cs[j] == ' '
            invariant
                s1 <= j <= n,
                n == t.len(),
                cs@ == t,
                first_non_space(t, j as int) == first_non_space(t, s1 as int),
            decreases n - j,
        {
            j = j + 1;
        }
        if j < n {
            assert(j > start) by {
                if cut == 0 {
                    assert(t[start as int] == ' ');
                }
            }
            start = j;
        } else {
            start = s1;
            break ;
        }
    }
    if start < n {
        let rest = String::from_str(text.substring_char(start, n));
        proof {
            assert(string_views(result@.push(rest)) =~= string_views(result@).push(rest@));
        }
        result.push(rest);
    }
    result
}

} // verus!
