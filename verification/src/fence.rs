//! Removing a Markdown code fence that a model may wrap around its JSON answer.
use vstd::prelude::*;

use crate::text::{chars_of, has_prefix, occurs_at_exec, string_of_range, trim, trim_bounds};

verus! {

/// The pieces of `s` between line feeds: one more piece than there are line feeds.
pub open spec fn split_nl(s: Seq<char>) -> Seq<Seq<char>>
    decreases s.len(),
{
    if s.len() == 0 {
        seq![Seq::empty()]
    } else {
        let prev = split_nl(s.drop_last());
        if s.last() == '\n' {
            prev.push(Seq::empty())
        } else {
            prev.update(prev.len() - 1, prev.last().push(s.last()))
        }
    }
}

/// There is always at least one piece.
pub proof fn lemma_split_nonempty(s: Seq<char>)
    ensures
        split_nl(s).len() >= 1,
    decreases s.len(),
{
    if s.len() > 0 {
        lemma_split_nonempty(s.drop_last());
    }
}

/// A line without the carriage return of a CRLF line ending.
pub open spec fn strip_cr(piece: Seq<char>) -> Seq<char> {
    if piece.len() > 0 && piece.last() == '\r' {
        piece.drop_last()
    } else {
        piece
    }
}

/// The lines of `s` as std's `str::lines` yields them: split at `\n`, a `\r`
/// before a `\n` dropped, and no empty line after a final line ending.
pub open spec fn text_lines(s: Seq<char>) -> Seq<Seq<char>> {
    let p = split_nl(s);
    let ended = p.drop_last().map_values(|x: Seq<char>| strip_cr(x));
    if p.last().len() == 0 {
        ended
    } else {
        ended.push(p.last())
    }
}

/// The lines joined with `\n` between them.
pub open spec fn join_lines(ls: Seq<Seq<char>>) -> Seq<char>
    decreases ls.len(),
{
    if ls.len() == 0 {
        Seq::empty()
    } else if ls.len() == 1 {
        ls[0]
    } else {
        join_lines(ls.drop_last()) + seq!['\n'] + ls.last()
    }
}

pub open spec fn fence() -> Seq<char> {
    seq!['`', '`', '`']
}

/// `ls` without its first line, and then without a last line that is a bare fence.
pub open spec fn fence_body(ls: Seq<Seq<char>>) -> Seq<Seq<char>> {
    let rest = if ls.len() > 0 {
        ls.drop_first()
    } else {
        ls
    };
    if rest.len() > 0 && rest.last() == fence() {
        rest.drop_last()
    } else {
        rest
    }
}

/// The text of a model answer without surrounding whitespace and, when it
/// starts with a code fence, without the opening fence line and a closing
/// fence line.
pub open spec fn fence_stripped(s: Seq<char>) -> Seq<char> {
    let t = trim(s);
    if has_prefix(t, fence()) {
        trim(join_lines(fence_body(text_lines(t))))
    } else {
        t
    }
}

pub open spec fn views(v: Seq<Vec<char>>) -> Seq<Seq<char>> {
    v.map_values(|x: Vec<char>| x@)
}

/// The lines of `t`, as `str::lines` yields them.
fn lines_of(t: &Vec<char>) -> (r: Vec<Vec<char>>)
    ensures
        views(r@) == text_lines(t@),
{
    let mut done: Vec<Vec<char>> = Vec::new();
    let mut cur: Vec<char> = Vec::new();
    let mut k: usize = 0;
    assert(t@.take(0) =~= Seq::<char>::empty());
    assert(views(done@) =~= split_nl(t@.take(0)).drop_last().map_values(|x: Seq<char>| strip_cr(x)));
    while k < t.len()
        invariant
            k <= t@.len(),
            views(done@) == split_nl(t@.take(k as int)).drop_last().map_values(
                |x: Seq<char>| strip_cr(x),
            ),
            cur@ == split_nl(t@.take(k as int)).last(),
        decreases t@.len() - k,
    {
        let c = t[k];
        let ghost before = t@.take(k as int);
        let ghost p = split_nl(before);
        proof {
            lemma_split_nonempty(before);
        }
        assert(t@.take(k + 1).drop_last() =~= before);
        assert(t@.take(k + 1).last() == c);
        if c == '\n' {
            let ghost old_done = done@;
            assert(views(old_done).len() == old_done.len());
            assert(old_done.len() == p.len() - 1);
            let finished = strip_cr_exec(cur);
            done.push(finished);
            assert(done@ == old_done.push(finished));
            cur = Vec::new();
            assert(p.push(Seq::empty()).drop_last() =~= p);
            assert forall|i: int| 0 <= i < p.len() implies #[trigger] views(done@)[i] == strip_cr(
                p[i],
            ) by {
                if i < p.len() - 1 {
                    assert(done@[i] == old_done[i]);
                    assert(views(old_done)[i] == strip_cr(p.drop_last()[i]));
                }
            }
            assert(views(done@) =~= p.map_values(|x: Seq<char>| strip_cr(x)));
            assert(p =~= p.drop_last().push(p.last()));
        } else {
            cur.push(c);
            let ghost q = p.update(p.len() - 1, p.last().push(c));
            assert(q.drop_last() =~= p.drop_last());
        }
        k = k + 1;
    }
    assert(t@.take(t@.len() as int) =~= t@);
    if cur.len() > 0 {
        done.push(cur);
        assert(views(done@) =~= text_lines(t@));
    }
    done
}

/// The piece without a trailing carriage return.
fn strip_cr_exec(piece: Vec<char>) -> (r: Vec<char>)
    ensures
        r@ == strip_cr(piece@),
{
    let mut p = piece;
    let n = p.len();
    if n > 0 && p[n - 1] == '\r' {
        p.pop();
    }
    p
}

/// The lines joined with line feeds.
fn join_exec(ls: &Vec<Vec<char>>) -> (r: Vec<char>)
    ensures
        r@ == join_lines(views(ls@)),
{
    let mut out: Vec<char> = Vec::new();
    let mut i: usize = 0;
    assert(views(ls@).take(0) =~= Seq::<Seq<char>>::empty());
    while i < ls.len()
        invariant
            i <= ls@.len(),
            out@ == join_lines(views(ls@).take(i as int)),
        decreases ls@.len() - i,
    {
        let ghost prev = out@;
        if i > 0 {
            out.push('\n');
        }
        let line = &ls[i];
        let mut j: usize = 0;
        let ghost base = out@;
        while j < line.len()
            invariant
                j <= line@.len(),
                line@ == ls@[i as int]@,
                out@ == base + line@.take(j as int),
            decreases line@.len() - j,
        {
            out.push(line[j]);
            assert(line@.take(j + 1) =~= line@.take(j as int).push(line@[j as int]));
            j = j + 1;
        }
        assert(line@.take(line@.len() as int) =~= line@);
        let ghost taken = views(ls@).take(i + 1);
        assert(taken.drop_last() =~= views(ls@).take(i as int));
        assert(taken.last() == ls@[i as int]@);
        if i == 0 {
            assert(taken.len() == 1);
            assert(out@ =~= taken[0]);
        } else {
            assert(out@ =~= prev + seq!['\n'] + line@);
        }
        i = i + 1;
    }
    assert(views(ls@).take(ls@.len() as int) =~= views(ls@));
    out
}

/// Removes a Markdown code fence around a model answer: the text is trimmed,
/// and if it starts with three backticks its first line and a closing line of
/// three backticks are dropped and the rest is joined and trimmed again.
pub fn strip_code_fence(s: &str) -> (r: String)
    ensures
        r@ == fence_stripped(s@),
{
    let all = chars_of(s);
    let (a, b) = trim_bounds(all.as_slice());
    let mut t: Vec<char> = Vec::new();
    let mut i = a;
    while i < b
        invariant
            a <= i <= b <= all@.len(),
            t@ == all@.subrange(a as int, i as int),
        decreases b - i,
    {
        t.push(all[i]);
        i = i + 1;
    }
    let mut f: Vec<char> = Vec::new();
    f.push('`');
    f.push('`');
    f.push('`');
    assert(f@ =~= fence());
    if !occurs_at_exec(t.as_slice(), f.as_slice(), 0) {
        assert(t@.subrange(0, t@.len() as int) =~= t@);
        return string_of_range(t.as_slice(), 0, t.len());
    }
    let mut lines = lines_of(&t);
    let ghost ls = views(lines@);
    if lines.len() > 0 {
        lines.remove(0);
        assert(views(lines@) =~= ls.drop_first());
    }
    let ghost rest = views(lines@);
    let n = lines.len();
    if n > 0 && lines[n - 1].len() == 3 && occurs_at_exec(lines[n - 1].as_slice(), f.as_slice(), 0) {
        assert(lines@[n - 1]@.subrange(0, 3) =~= lines@[n - 1]@);
        lines.pop();
        assert(views(lines@) =~= rest.drop_last());
    } else {
        proof {
            if n > 0 && lines@[n - 1]@ == fence() {
                assert(lines@[n - 1]@.subrange(0, 3) =~= lines@[n - 1]@);
            }
        }
    }
    assert(views(lines@) == fence_body(text_lines(t@)));
    let joined = join_exec(&lines);
    let (c, d) = trim_bounds(joined.as_slice());
    string_of_range(joined.as_slice(), c, d)
}

/// Without line feeds, the text is one piece.
proof fn lemma_split_single(x: Seq<char>)
    requires
        forall|k: int| 0 <= k < x.len() ==> x[k] != '\n',
    ensures
        split_nl(x) == seq![x],
    decreases x.len(),
{
    if x.len() > 0 {
        lemma_split_single(x.drop_last());
        assert(x.drop_last().push(x.last()) =~= x);
        assert(split_nl(x) =~= seq![x]);
    } else {
        assert(x =~= Seq::<char>::empty());
        assert(split_nl(x) =~= seq![x]);
    }
}

/// Splitting at a line feed splits the pieces there.
proof fn lemma_split_concat(a: Seq<char>, b: Seq<char>)
    ensures
        split_nl(a + seq!['\n'] + b) == split_nl(a) + split_nl(b),
    decreases b.len(),
{
    lemma_split_nonempty(a);
    lemma_split_nonempty(b);
    if b.len() == 0 {
        assert((a + seq!['\n'] + b).drop_last() =~= a);
        assert(split_nl(a) + split_nl(b) =~= split_nl(a).push(Seq::empty()));
    } else {
        let b0 = b.drop_last();
        lemma_split_concat(a, b0);
        lemma_split_nonempty(b0);
        assert((a + seq!['\n'] + b).drop_last() =~= a + seq!['\n'] + b0);
        if b.last() == '\n' {
            assert(split_nl(a) + split_nl(b) =~= (split_nl(a) + split_nl(b0)).push(Seq::empty()));
        } else {
            let p = split_nl(a) + split_nl(b0);
            let q = split_nl(b0);
            assert(split_nl(a) + split_nl(b) =~= p.update(p.len() - 1, p.last().push(b.last())));
        }
    }
}

/// A model answer fenced as a Markdown code block (an opening line of three
/// backticks and an optional language tag, the body, a closing line of three
/// backticks) gives back exactly its body, when the body is a single line
/// without surrounding whitespace.
pub proof fn law_fenced_answer(lang: Seq<char>, body: Seq<char>)
    requires
        forall|k: int| 0 <= k < lang.len() ==> lang[k] != '\n',
        forall|k: int| 0 <= k < body.len() ==> body[k] != '\n',
        trim(body) == body,
    ensures
        fence_stripped(fence() + lang + seq!['\n'] + body + seq!['\n'] + fence()) == body,
{
    let head = fence() + lang;
    let s = head + seq!['\n'] + body + seq!['\n'] + fence();
    assert(s[0] == '`');
    assert(s.last() == '`');
    crate::text::lemma_trim_fixed(s);
    assert(trim(s) == s);
    assert(s.subrange(0, 3) =~= fence());
    assert forall|k: int| 0 <= k < head.len() implies head[k] != '\n' by {
        if k >= 3 {
            assert(head[k] == lang[k - 3]);
        }
    }
    lemma_split_single(head);
    lemma_split_single(body);
    lemma_split_single(fence());
    lemma_split_concat(head, body);
    lemma_split_concat(head + seq!['\n'] + body, fence());
    assert(s =~= (head + seq!['\n'] + body) + seq!['\n'] + fence());
    let pieces = seq![head, body, fence()];
    assert(split_nl(s) =~= pieces);
    let ls = text_lines(s);
    assert(ls =~= seq![strip_cr(head), strip_cr(body), fence()]);
    let fb = fence_body(ls);
    assert(fb =~= seq![strip_cr(body)]);
    assert(join_lines(fb) == strip_cr(body));
    if body.len() > 0 && body.last() == '\r' {
        assert(crate::text::is_ws(body.last()));
        crate::text::lemma_trim_shape(body);
    }
    assert(strip_cr(body) == body);
}

} // verus!
