//! Peephole pass over three-address code: a temporary that is defined on one
//! line, used once, and copied as a whole into a variable on the next line is
//! replaced by its definition.
use crate::ast::texts;
use crate::lexer::ws_end;
use crate::text::{
    alphanumeric_char, chars_of, is_alphanumeric, is_numeric, is_whitespace, numeric_char, string_of,
    whitespace_char,
};
use vstd::prelude::*;

verus! {

/// The end of the word that starts at `i`: the next whitespace or the end.
pub open spec fn word_end(s: Seq<char>, i: int) -> int
    decreases s.len() - i,
{
    if 0 <= i < s.len() && !whitespace_char(s[i]) {
        word_end(s, i + 1)
    } else {
        i
    }
}

/// The whitespace-separated words of `s` from `i` on.
pub open spec fn words_from(s: Seq<char>, i: int) -> Seq<Seq<char>>
    decreases s.len() - i,
{
    let j = ws_end(s, i);
    let k = word_end(s, j);
    if j < k && i < k <= s.len() {
        seq![s.subrange(j, k)] + words_from(s, k)
    } else {
        Seq::empty()
    }
}

pub open spec fn words(s: Seq<char>) -> Seq<Seq<char>> {
    words_from(s, 0)
}

/// The words joined with single spaces.
pub open spec fn join(ws: Seq<Seq<char>>) -> Seq<char>
    decreases ws.len(),
{
    if ws.len() == 0 {
        Seq::empty()
    } else if ws.len() == 1 {
        ws[0]
    } else {
        join(ws.drop_last()) + seq![' '] + ws.last()
    }
}

/// `t` followed by numeric characters only.
pub open spec fn is_temp(w: Seq<char>) -> bool {
    w.len() > 0 && w[0] == 't' && forall|i: int| 1 <= i < w.len() ==> numeric_char(#[trigger] w[i])
}

/// A right side that is one temporary-like word: `t` and alphanumerics.
pub open spec fn is_single_temp(w: Seq<char>) -> bool {
    w.len() > 0 && w[0] == 't' && forall|i: int| 0 <= i < w.len() ==> alphanumeric_char(
        #[trigger] w[i],
    )
}

/// `w` without its trailing characters that are not alphanumeric.
pub open spec fn trim_end(w: Seq<char>) -> Seq<char>
    decreases w.len(),
{
    if w.len() > 0 && !alphanumeric_char(w.last()) {
        trim_end(w.drop_last())
    } else {
        w
    }
}

/// A line of the form `dest = ...` with something after the `=`.
pub open spec fn is_assign(p: Seq<Seq<char>>) -> bool {
    p.len() >= 3 && p[1] == seq!['=']
}

/// The right side of an assignment line.
pub open spec fn rhs(p: Seq<Seq<char>>) -> Seq<char> {
    join(p.subrange(2, p.len() as int))
}

/// How many of the words are, once trimmed, the temporary `t`.
pub open spec fn count_in(ws: Seq<Seq<char>>, t: Seq<char>) -> nat
    decreases ws.len(),
{
    if ws.len() == 0 {
        0
    } else {
        count_in(ws.drop_last(), t) + if is_temp(trim_end(ws.last())) && trim_end(ws.last()) == t {
            1nat
        } else {
            0nat
        }
    }
}

/// How often the temporary `t` is used on right sides of the lines (given as words).
pub open spec fn use_count(ps: Seq<Seq<Seq<char>>>, t: Seq<char>) -> nat
    decreases ps.len(),
{
    if ps.len() == 0 {
        0
    } else {
        let p = ps.last();
        use_count(ps.drop_last(), t) + if is_assign(p) {
            count_in(p.subrange(2, p.len() as int), t)
        } else {
            0
        }
    }
}

/// The right side of the last line that defines the temporary `t`.
pub open spec fn last_def(ps: Seq<Seq<Seq<char>>>, t: Seq<char>) -> Option<Seq<char>>
    decreases ps.len(),
{
    if ps.len() == 0 {
        None
    } else {
        let p = ps.last();
        if is_assign(p) && is_temp(p[0]) && p[0] == t {
            Some(rhs(p))
        } else {
            last_def(ps.drop_last(), t)
        }
    }
}

/// Line `i` defines a temporary used once, which line `i + 1` copies whole.
pub open spec fn dropped(ps: Seq<Seq<Seq<char>>>, i: int) -> bool {
    &&& 0 <= i
    &&& i + 1 < ps.len()
    &&& is_assign(ps[i])
    &&& is_assign(ps[i + 1])
    &&& is_temp(ps[i][0])
    &&& rhs(ps[i + 1]) == ps[i][0]
    &&& use_count(ps, ps[i][0]) == 1
}

/// Line `i` as it is written out: a copy of a temporary used once takes the
/// temporary's definition, any other line stays as it is.
pub open spec fn out_line(lines: Seq<Seq<char>>, ps: Seq<Seq<Seq<char>>>, i: int) -> Seq<char> {
    let p = ps[i];
    if is_assign(p) && is_single_temp(rhs(p)) && last_def(ps, rhs(p)) is Some && use_count(
        ps,
        rhs(p),
    ) == 1 {
        p[0] + seq![' ', '=', ' '] + last_def(ps, rhs(p))->0
    } else {
        lines[i]
    }
}

/// The output for the first `n` lines.
pub open spec fn out_prefix(lines: Seq<Seq<char>>, ps: Seq<Seq<Seq<char>>>, n: int) -> Seq<
    Seq<char>,
>
    decreases n,
{
    if n <= 0 {
        Seq::empty()
    } else {
        out_prefix(lines, ps, n - 1) + if dropped(ps, n - 1) {
            Seq::empty()
        } else {
            seq![out_line(lines, ps, n - 1)]
        }
    }
}

/// The words of every line.
pub open spec fn line_words(lines: Seq<Seq<char>>) -> Seq<Seq<Seq<char>>> {
    lines.map_values(|l: Seq<char>| words(l))
}

/// The peephole pass over the lines.
pub open spec fn peephole(lines: Seq<Seq<char>>) -> Seq<Seq<char>> {
    out_prefix(lines, line_words(lines), lines.len() as int)
}

pub open spec fn word_views(v: Seq<Vec<char>>) -> Seq<Seq<char>> {
    v.map_values(|w: Vec<char>| w@)
}

pub open spec fn line_views(v: Seq<Vec<Vec<char>>>) -> Seq<Seq<Seq<char>>> {
    v.map_values(|p: Vec<Vec<char>>| word_views(p@))
}

proof fn lemma_ws_bounds(s: Seq<char>, i: int)
    requires
        0 <= i <= s.len(),
    ensures
        i <= ws_end(s, i) <= s.len(),
        ws_end(s, i) < s.len() ==> !whitespace_char(s[ws_end(s, i)]),
    decreases s.len() - i,
{
    if i < s.len() && whitespace_char(s[i]) {
        lemma_ws_bounds(s, i + 1);
    }
}

proof fn lemma_word_bounds(s: Seq<char>, i: int)
    requires
        0 <= i <= s.len(),
    ensures
        i <= word_end(s, i) <= s.len(),
        i < s.len() && !whitespace_char(s[i]) ==> i < word_end(s, i),
    decreases s.len() - i,
{
    if i < s.len() && !whitespace_char(s[i]) {
        lemma_word_bounds(s, i + 1);
    }
}

/// The whitespace-separated words of a line.
pub fn split_words(line: &Vec<char>) -> (r: Vec<Vec<char>>)
    ensures
        word_views(r@) == words(line@),
{
    let s = line;
    let mut r: Vec<Vec<char>> = Vec::new();
    let mut i: usize = 0;
    assert(word_views(r@) + words_from(s@, 0) =~= words(s@));
    while i < s.len()
        invariant
            i <= s.len(),
            word_views(r@) + words_from(s@, i as int) == words(s@),
        decreases s.len() - i,
    {
        proof {
            lemma_ws_bounds(s@, i as int);
        }
        let mut j: usize = i;
        while j < s.len() && is_whitespace(s[j])
            invariant
                i <= j <= s.len(),
                ws_end(s@, i as int) == ws_end(s@, j as int),
            decreases s.len() - j,
        {
            j = j + 1;
        }
        if j >= s.len() {
            assert(words_from(s@, i as int) =~= Seq::<Seq<char>>::empty()) by {
                lemma_word_bounds(s@, j as int);
            }
            i = j;
            assert(words_from(s@, i as int) =~= Seq::<Seq<char>>::empty());
        } else {
            proof {
                lemma_word_bounds(s@, j as int);
            }
            let mut w: Vec<char> = Vec::new();
            let mut k: usize = j;
            while k < s.len() && !is_whitespace(s[k])
                invariant
                    j <= k <= s.len(),
                    word_end(s@, j as int) == word_end(s@, k as int),
                    w@ == s@.subrange(j as int, k as int),
                decreases s.len() - k,
            {
                let c = s[k];
                assert(s@.subrange(j as int, k + 1) =~= s@.subrange(j as int, k as int).push(c));
                w.push(c);
                k = k + 1;
            }
            let ghost rv = word_views(r@);
            r.push(w);
            assert(word_views(r@) =~= rv + seq![s@.subrange(j as int, k as int)]);
            assert(word_views(r@) + words_from(s@, k as int) =~= rv + words_from(s@, i as int));
            i = k;
        }
    }
    assert(words_from(s@, i as int) =~= Seq::<Seq<char>>::empty());
    assert(word_views(r@) =~= words(s@));
    r
}

fn same_chars(a: &Vec<char>, b: &Vec<char>) -> (r: bool)
    ensures
        r == (a@ == b@),
{
    if a.len() != b.len() {
        return false;
    }
    let mut i: usize = 0;
    while i < a.len()
        invariant
            a.len() == b.len(),
            i <= a.len(),
            forall|j: int| 0 <= j < i ==> a@[j] == b@[j],
        decreases a.len() - i,
    {
        if a[i] != b[i] {
            return false;
        }
        i = i + 1;
    }
    assert(a@ =~= b@);
    true
}

fn temp_word(w: &Vec<char>) -> (r: bool)
    ensures
        r == is_temp(w@),
{
    if w.len() == 0 || w[0] != 't' {
        return false;
    }
    let mut i: usize = 1;
    while i < w.len()
        invariant
            1 <= i <= w.len(),
            forall|j: int| 1 <= j < i ==> numeric_char(#[trigger] w@[j]),
        decreases w.len() - i,
    {
        if !is_numeric(w[i]) {
            return false;
        }
        i = i + 1;
    }
    true
}

fn single_temp_word(w: &Vec<char>) -> (r: bool)
    ensures
        r == is_single_temp(w@),
{
    if w.len() == 0 || w[0] != 't' {
        return false;
    }
    let mut i: usize = 0;
    while i < w.len()
        invariant
            i <= w.len(),
            forall|j: int| 0 <= j < i ==> alphanumeric_char(#[trigger] w@[j]),
        decreases w.len() - i,
    {
        if !is_alphanumeric(w[i]) {
            return false;
        }
        i = i + 1;
    }
    true
}

fn trimmed(w: &Vec<char>) -> (r: Vec<char>)
    ensures
        r@ == trim_end(w@),
{
    let mut n: usize = w.len();
    assert(w@.subrange(0, n as int) =~= w@);
    while n > 0 && !is_alphanumeric(w[n - 1])
        invariant
            n <= w.len(),
            trim_end(w@) == trim_end(w@.subrange(0, n as int)),
        decreases n,
    {
        assert(w@.subrange(0, n as int).drop_last() =~= w@.subrange(0, n - 1));
        n = n - 1;
    }
    let mut r: Vec<char> = Vec::new();
    let mut i: usize = 0;
    while i < n
        invariant
            i <= n <= w.len(),
            r@ == w@.subrange(0, i as int),
        decreases n - i,
    {
        r.push(w[i]);
        i = i + 1;
        assert(r@ =~= w@.subrange(0, i as int));
    }
    proof {
        let u = w@.subrange(0, n as int);
        if n > 0 {
            assert(u.last() == w@[n - 1]);
        }
        assert(trim_end(u) == u);
    }
    r
}

fn is_assign_line(p: &Vec<Vec<char>>) -> (r: bool)
    ensures
        r == is_assign(word_views(p@)),
{
    if p.len() >= 3 {
        let eq = p[1].len() == 1 && p[1][0] == '=';
        assert(eq == (word_views(p@)[1] =~= seq!['=']));
        eq
    } else {
        false
    }
}

/// The words of `p` from `from` on, joined with single spaces.
fn join_from(p: &Vec<Vec<char>>, from: usize) -> (r: Vec<char>)
    requires
        from <= p.len(),
    ensures
        r@ == join(word_views(p@).subrange(from as int, p.len() as int)),
{
    let ghost ws = word_views(p@);
    let mut r: Vec<char> = Vec::new();
    let mut i: usize = from;
    assert(ws.subrange(from as int, from as int) =~= Seq::<Seq<char>>::empty());
    while i < p.len()
        invariant
            from <= i <= p.len(),
            ws == word_views(p@),
            r@ == join(ws.subrange(from as int, i as int)),
        decreases p.len() - i,
    {
        let ghost prev = ws.subrange(from as int, i as int);
        assert(ws.subrange(from as int, i + 1).drop_last() =~= prev);
        if i > from {
            r.push(' ');
        }
        let w = &p[i];
        let mut k: usize = 0;
        let ghost r0 = r@;
        while k < w.len()
            invariant
                k <= w.len(),
                r@ == r0 + w@.subrange(0, k as int),
            decreases w.len() - k,
        {
            r.push(w[k]);
            k = k + 1;
            assert(r@ =~= r0 + w@.subrange(0, k as int));
        }
        assert(w@.subrange(0, k as int) =~= w@);
        i = i + 1;
        if i - 1 == from {
            assert(ws.subrange(from as int, i as int) =~= seq![ws[from as int]]);
            assert(r@ =~= join(ws.subrange(from as int, i as int)));
        } else {
            assert(r@ =~= join(ws.subrange(from as int, i as int)));
        }
    }
    r
}

pub open spec fn cap2(n: nat) -> nat {
    if n < 2 {
        n
    } else {
        2
    }
}

/// How often the temporary `t` occurs among the words of `p` from `from` on, up to 2.
fn count_in_words(p: &Vec<Vec<char>>, from: usize, t: &Vec<char>) -> (r: usize)
    requires
        from <= p.len(),
    ensures
        r == cap2(count_in(word_views(p@).subrange(from as int, p.len() as int), t@)),
{
    let ghost ws = word_views(p@);
    let mut c: usize = 0;
    let mut i: usize = from;
    assert(ws.subrange(from as int, from as int) =~= Seq::<Seq<char>>::empty());
    while i < p.len()
        invariant
            from <= i <= p.len(),
            ws == word_views(p@),
            c == cap2(count_in(ws.subrange(from as int, i as int), t@)),
        decreases p.len() - i,
    {
        assert(ws.subrange(from as int, i + 1).drop_last() =~= ws.subrange(from as int, i as int));
        let w = trimmed(&p[i]);
        if temp_word(&w) && same_chars(&w, t) && c < 2 {
            c = c + 1;
        }
        i = i + 1;
    }
    c
}

/// How often the temporary `t` is used on the right sides, up to 2.
fn count_uses(ps: &Vec<Vec<Vec<char>>>, t: &Vec<char>) -> (r: usize)
    ensures
        r == cap2(use_count(line_views(ps@), t@)),
{
    let ghost all = line_views(ps@);
    let mut c: usize = 0;
    let mut j: usize = 0;
    assert(all.subrange(0, 0) =~= Seq::<Seq<Seq<char>>>::empty());
    while j < ps.len()
        invariant
            j <= ps.len(),
            all == line_views(ps@),
            c == cap2(use_count(all.subrange(0, j as int), t@)),
        decreases ps.len() - j,
    {
        assert(all.subrange(0, j + 1).drop_last() =~= all.subrange(0, j as int));
        assert(all.subrange(0, j + 1).last() == word_views(ps@[j as int]@));
        let p = &ps[j];
        if is_assign_line(p) {
            let k = count_in_words(p, 2, t);
            c = if c + k < 2 {
                c + k
            } else {
                2
            };
        }
        j = j + 1;
    }
    assert(all.subrange(0, j as int) =~= all);
    c
}

/// The right side of the last line that defines the temporary `t`.
fn find_last_def(ps: &Vec<Vec<Vec<char>>>, t: &Vec<char>) -> (r: Option<Vec<char>>)
    ensures
        match last_def(line_views(ps@), t@) {
            Some(d) => r matches Some(v) && v@ == d,
            None => r is None,
        },
{
    let ghost all = line_views(ps@);
    let mut found: Option<Vec<char>> = None;
    let mut j: usize = 0;
    assert(all.subrange(0, 0) =~= Seq::<Seq<Seq<char>>>::empty());
    while j < ps.len()
        invariant
            j <= ps.len(),
            all == line_views(ps@),
            match last_def(all.subrange(0, j as int), t@) {
                Some(d) => found matches Some(v) && v@ == d,
                None => found is None,
            },
        decreases ps.len() - j,
    {
        assert(all.subrange(0, j + 1).drop_last() =~= all.subrange(0, j as int));
        assert(all.subrange(0, j + 1).last() == word_views(ps@[j as int]@));
        let p = &ps[j];
        if is_assign_line(p) && temp_word(&p[0]) && same_chars(&p[0], t) {
            found = Some(join_from(p, 2));
        }
        j = j + 1;
    }
    assert(all.subrange(0, j as int) =~= all);
    found
}

fn is_dropped(ps: &Vec<Vec<Vec<char>>>, i: usize) -> (r: bool)
    requires
        i < ps.len(),
    ensures
        r == dropped(line_views(ps@), i as int),
{
    let ghost all = line_views(ps@);
    if i + 1 >= ps.len() {
        return false;
    }
    let p = &ps[i];
    let q = &ps[i + 1];
    assert(all[i as int] == word_views(p@));
    assert(all[i + 1] == word_views(q@));
    if !(is_assign_line(p) && is_assign_line(q)) {
        return false;
    }
    assert(word_views(p@)[0] == p@[0]@);
    if !temp_word(&p[0]) {
        return false;
    }
    let r = join_from(q, 2);
    same_chars(&r, &p[0]) && count_uses(ps, &p[0]) == 1
}

fn output_line(code: &Vec<String>, ps: &Vec<Vec<Vec<char>>>, i: usize) -> (r: String)
    requires
        i < ps.len(),
        ps.len() == code.len(),
    ensures
        r@ == out_line(texts(code@), line_views(ps@), i as int),
{
    let ghost all = line_views(ps@);
    let p = &ps[i];
    assert(all[i as int] == word_views(p@));
    if is_assign_line(p) {
        let rv = join_from(p, 2);
        if single_temp_word(&rv) {
            if let Some(d) = find_last_def(ps, &rv) {
                if count_uses(ps, &rv) == 1 {
                    let mut line: Vec<char> = Vec::new();
                    let lhs = &p[0];
                    assert(word_views(p@)[0] == lhs@);
                    let mut k: usize = 0;
                    while k < lhs.len()
                        invariant
                            k <= lhs.len(),
                            line@ == lhs@.subrange(0, k as int),
                        decreases lhs.len() - k,
                    {
                        line.push(lhs[k]);
                        k = k + 1;
                        assert(line@ =~= lhs@.subrange(0, k as int));
                    }
                    line.push(' ');
                    line.push('=');
                    line.push(' ');
                    let ghost l0 = line@;
                    let mut k: usize = 0;
                    while k < d.len()
                        invariant
                            k <= d.len(),
                            line@ == l0 + d@.subrange(0, k as int),
                        decreases d.len() - k,
                    {
                        line.push(d[k]);
                        k = k + 1;
                        assert(line@ =~= l0 + d@.subrange(0, k as int));
                    }
                    assert(line@ =~= out_line(texts(code@), all, i as int));
                    return string_of(&line);
                }
            }
        }
    }
    code[i].clone()
}

/// The peephole pass: lines that define a temporary which the next line copies
/// whole, and which is used nowhere else, are dropped; the copy takes the definition.
pub fn peephole_optimize(code: Vec<String>) -> (r: Vec<String>)
    ensures
        texts(r@) == peephole(texts(code@)),
{
    let ghost lines = texts(code@);
    let mut ps: Vec<Vec<Vec<char>>> = Vec::new();
    let mut i: usize = 0;
    while i < code.len()
        invariant
            i <= code.len(),
            lines == texts(code@),
            line_views(ps@) == line_words(lines).subrange(0, i as int),
        decreases code.len() - i,
    {
        let cs = chars_of(code[i].as_str());
        let ws = split_words(&cs);
        assert(cs@ == lines[i as int]);
        assert(line_words(lines)[i as int] == word_views(ws@));
        let ghost prev = line_views(ps@);
        ps.push(ws);
        assert(line_views(ps@) =~= prev.push(word_views(ws@)));
        i = i + 1;
        assert(line_views(ps@) =~= line_words(lines).subrange(0, i as int));
    }
    assert(line_views(ps@) =~= line_words(lines));
    let mut out: Vec<String> = Vec::new();
    let mut i: usize = 0;
    while i < code.len()
        invariant
            i <= code.len(),
            ps.len() == code.len(),
            lines == texts(code@),
            line_views(ps@) == line_words(lines),
            texts(out@) == out_prefix(lines, line_words(lines), i as int),
        decreases code.len() - i,
    {
        let ghost before = texts(out@);
        if !is_dropped(&ps, i) {
            let line = output_line(&code, &ps, i);
            out.push(line);
        }
        i = i + 1;
        assert(texts(out@) =~= out_prefix(lines, line_words(lines), i as int));
    }
    out
}

} // verus!
