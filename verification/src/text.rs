//! Splitting text into fields and lines, over the bytes of the text.

use vstd::prelude::*;

verus! {

/// The pieces of `s` between occurrences of `sep`, as `str::split` yields
/// them: always at least one piece, empty pieces included.
pub open spec fn split_on<A>(s: Seq<A>, sep: A) -> Seq<Seq<A>>
    decreases s.len(),
{
    if s.len() == 0 {
        seq![Seq::<A>::empty()]
    } else {
        let prev = split_on(s.drop_last(), sep);
        if s.last() == sep {
            prev.push(Seq::<A>::empty())
        } else {
            prev.update(prev.len() - 1, prev.last().push(s.last()))
        }
    }
}

/// `s` holds no `sep`.
pub open spec fn free_of<A>(s: Seq<A>, sep: A) -> bool {
    forall|i: int| 0 <= i < s.len() ==> #[trigger] s[i] != sep
}

/// A line without its trailing carriage return, if it has one.
pub open spec fn strip_cr(line: Seq<u8>) -> Seq<u8> {
    if line.len() > 0 && line.last() == 13u8 {
        line.drop_last()
    } else {
        line
    }
}

/// The lines of `s` as `str::lines` yields them: split at `\n`, a `\r`
/// before a `\n` dropped, and no empty line after a final `\n`.
pub open spec fn text_lines(s: Seq<u8>) -> Seq<Seq<u8>> {
    let parts = split_on(s, 10u8);
    let init = parts.drop_last().map_values(|l: Seq<u8>| strip_cr(l));
    if parts.last().len() == 0 {
        init
    } else {
        init.push(parts.last())
    }
}

/// Splitting always yields at least one piece.
pub proof fn lemma_split_nonempty<A>(s: Seq<A>, sep: A)
    ensures
        split_on(s, sep).len() >= 1,
    decreases s.len(),
{
    if s.len() > 0 {
        lemma_split_nonempty(s.drop_last(), sep);
    }
}

/// Appending text free of the separator extends the last piece.
pub proof fn lemma_split_append_free<A>(t: Seq<A>, w: Seq<A>, sep: A)
    requires
        free_of(w, sep),
    ensures
        split_on(t + w, sep).len() == split_on(t, sep).len(),
        split_on(t + w, sep) == split_on(t, sep).update(
            split_on(t, sep).len() - 1,
            split_on(t, sep).last() + w,
        ),
    decreases w.len(),
{
    lemma_split_nonempty(t, sep);
    if w.len() == 0 {
        assert(t + w =~= t);
        let p = split_on(t, sep);
        assert(p.last() + w =~= p.last());
        assert(p.update(p.len() - 1, p.last()) =~= p);
    } else {
        let w0 = w.drop_last();
        assert(free_of(w0, sep));
        lemma_split_append_free(t, w0, sep);
        assert((t + w).drop_last() =~= t + w0);
        assert((t + w).last() == w.last());
        assert(w.last() != sep) by {
            assert(w[w.len() - 1] != sep);
        }
        let p = split_on(t, sep);
        let q = split_on(t + w0, sep);
        lemma_split_nonempty(t + w0, sep);
        assert(q.last() == p.last() + w0);
        assert((p.last() + w0).push(w.last()) =~= p.last() + w);
        assert(q.last().push(w.last()) == p.last() + w);
        assert(q.update(q.len() - 1, q.last().push(w.last())) =~= p.update(
            p.len() - 1,
            p.last() + w,
        ));
    }
}

/// Appending the separator starts a new, empty piece.
pub proof fn lemma_split_append_sep<A>(t: Seq<A>, sep: A)
    ensures
        split_on(t.push(sep), sep) == split_on(t, sep).push(Seq::<A>::empty()),
{
    assert(t.push(sep).drop_last() =~= t);
}

/// The texts held by a list of byte vectors.
pub open spec fn views(parts: Seq<Vec<u8>>) -> Seq<Seq<u8>> {
    parts.map_values(|p: Vec<u8>| p@)
}

/// Splits `s` at every `sep`.
pub fn split_bytes(s: &[u8], sep: u8) -> (parts: Vec<Vec<u8>>)
    ensures
        views(parts@) == split_on(s@, sep),
{
    let mut parts: Vec<Vec<u8>> = Vec::new();
    let mut cur: Vec<u8> = Vec::new();
    let mut i: usize = 0;
    while i < s.len()
        invariant
            0 <= i <= s.len(),
            views(parts@).push(cur@) == split_on(s@.take(i as int), sep),
        decreases s.len() - i,
    {
        let b = s[i];
        proof {
            assert(s@.take(i + 1).drop_last() =~= s@.take(i as int));
            assert(s@.take(i + 1).last() == b);
            lemma_split_nonempty(s@.take(i as int), sep);
        }
        if b == sep {
            let done = cur;
            let ghost before = views(parts@);
            parts.push(done);
            cur = Vec::new();
            proof {
                assert(views(parts@) =~= before.push(done@));
                assert(views(parts@).push(cur@) =~= split_on(s@.take(i + 1), sep));
            }
        } else {
            let ghost before = views(parts@);
            let ghost old_cur = cur@;
            cur.push(b);
            proof {
                assert(views(parts@) == before);
                assert(before.push(old_cur).update(before.len() as int, old_cur.push(b)) =~= before.push(cur@));
            }
        }
        i = i + 1;
    }
    proof {
        assert(s@.take(s@.len() as int) =~= s@);
    }
    let ghost before = views(parts@);
    parts.push(cur);
    proof {
        assert(views(parts@) =~= before.push(cur@));
    }
    parts
}


/// The pieces, each followed by `sep`.
pub open spec fn terminated<A>(pieces: Seq<Seq<A>>, sep: A) -> Seq<A>
    decreases pieces.len(),
{
    if pieces.len() == 0 {
        Seq::<A>::empty()
    } else {
        terminated(pieces.drop_last(), sep) + pieces.last().push(sep)
    }
}

/// The pieces with `sep` between each two of them.
pub open spec fn joined<A>(pieces: Seq<Seq<A>>, sep: A) -> Seq<A>
    decreases pieces.len(),
{
    if pieces.len() <= 1 {
        if pieces.len() == 0 {
            Seq::<A>::empty()
        } else {
            pieces[0]
        }
    } else {
        joined(pieces.drop_last(), sep).push(sep) + pieces.last()
    }
}

/// A text free of the separator is one piece.
pub proof fn lemma_split_free<A>(w: Seq<A>, sep: A)
    requires
        free_of(w, sep),
    ensures
        split_on(w, sep) == seq![w],
{
    lemma_split_append_free(Seq::<A>::empty(), w, sep);
    assert(Seq::<A>::empty() + w =~= w);
    assert(seq![Seq::<A>::empty()].update(0, Seq::<A>::empty() + w) =~= seq![w]);
}

/// Splitting pieces that were each followed by the separator gives the
/// pieces back, then one empty piece.
pub proof fn lemma_split_terminated<A>(pieces: Seq<Seq<A>>, sep: A)
    requires
        forall|i: int| 0 <= i < pieces.len() ==> free_of(#[trigger] pieces[i], sep),
    ensures
        split_on(terminated(pieces, sep), sep) == pieces.push(Seq::<A>::empty()),
    decreases pieces.len(),
{
    if pieces.len() == 0 {
        assert(split_on(terminated(pieces, sep), sep) =~= pieces.push(Seq::<A>::empty()));
    } else {
        let init = pieces.drop_last();
        let w = pieces.last();
        assert forall|i: int| 0 <= i < init.len() implies free_of(#[trigger] init[i], sep) by {
            assert(init[i] == pieces[i]);
        }
        lemma_split_terminated(init, sep);
        let t = terminated(init, sep);
        assert(free_of(pieces[pieces.len() - 1], sep));
        lemma_split_append_free(t, w, sep);
        lemma_split_append_sep(t + w, sep);
        assert(terminated(pieces, sep) =~= (t + w).push(sep));
        let p = split_on(t, sep);
        assert(p.last() + w =~= w);
        assert(split_on(terminated(pieces, sep), sep) =~= pieces.push(Seq::<A>::empty()));
    }
}

/// Splitting pieces joined by the separator gives the pieces back.
pub proof fn lemma_split_joined<A>(pieces: Seq<Seq<A>>, sep: A)
    requires
        pieces.len() > 0,
        forall|i: int| 0 <= i < pieces.len() ==> free_of(#[trigger] pieces[i], sep),
    ensures
        split_on(joined(pieces, sep), sep) == pieces,
    decreases pieces.len(),
{
    if pieces.len() == 1 {
        assert(free_of(pieces[0], sep));
        lemma_split_free(pieces[0], sep);
        assert(seq![pieces[0]] =~= pieces);
    } else {
        let init = pieces.drop_last();
        let w = pieces.last();
        assert forall|i: int| 0 <= i < init.len() implies free_of(#[trigger] init[i], sep) by {
            assert(init[i] == pieces[i]);
        }
        lemma_split_joined(init, sep);
        let t = joined(init, sep);
        assert(free_of(pieces[pieces.len() - 1], sep));
        lemma_split_append_sep(t, sep);
        lemma_split_append_free(t.push(sep), w, sep);
        let p = split_on(t.push(sep), sep);
        assert(p.last() + w =~= w);
        assert(split_on(joined(pieces, sep), sep) =~= pieces);
    }
}

/// The lines of `text`, as `str::lines` gives them.
pub fn lines_of(text: &[u8]) -> (lines: Vec<Vec<u8>>)
    ensures
        views(lines@) == text_lines(text@),
{
    let mut parts = split_bytes(text, 10u8);
    proof {
        lemma_split_nonempty(text@, 10u8);
    }
    let ghost all = views(parts@);
    let last = parts.pop().unwrap();
    let ghost init = all.drop_last();
    assert(views(parts@) =~= init);
    let mut lines: Vec<Vec<u8>> = Vec::new();
    let mut i: usize = 0;
    let n = parts.len();
    while i < n
        invariant
            0 <= i <= n,
            n == parts@.len(),
            views(parts@) == init,
            views(lines@) == init.take(i as int).map_values(|l: Seq<u8>| strip_cr(l)),
        decreases n - i,
    {
        let mut line = parts[i].clone();
        assert(line@ == init[i as int]);
        let len = line.len();
        if len > 0 && line[len - 1] == 13u8 {
            line.pop();
        }
        let ghost before = views(lines@);
        lines.push(line);
        proof {
            assert(views(lines@) =~= before.push(line@));
            assert(init.take(i + 1).map_values(|l: Seq<u8>| strip_cr(l)) =~= init.take(
                i as int,
            ).map_values(|l: Seq<u8>| strip_cr(l)).push(strip_cr(init[i as int])));
        }
        i = i + 1;
    }
    assert(init.take(n as int) =~= init);
    assert(last@ == all.last());
    if last.len() > 0 {
        let ghost before = views(lines@);
        lines.push(last);
        assert(views(lines@) =~= before.push(all.last()));
    }
    lines
}

} // verus!
