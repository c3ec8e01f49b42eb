//! Microsoft Edge neural voices with sentence-level pipelining: the text is
//! split into sentence-sized chunks so that the first one can play while the
//! next ones are synthesised.
use crate::text::{
    all_ws, chars_of, is_ws, lemma_non_ws_add, lemma_non_ws_trim, lemma_trim_fixed,
    lemma_trim_offset, lemma_trim_shape, lemma_trim_ws_prefix, lemma_trim_ws_suffix, non_ws,
    string_of, trim, trim_range, views,
};
use crate::capture::opt_view;
use crate::overlay::OverlayState;
use crate::tts::{clamp, clamp_speed, round_div, TtsCommand};
use std::collections::VecDeque;
use vstd::prelude::*;

verus! {

broadcast use vstd::std_specs::vecdeque::group_vec_dequeue_axioms;

/// Minimum chunk length in characters. Anything shorter is glued to the
/// next sentence.
pub const MIN_CHUNK_CHARS: usize = 30;

/// Characters after which a chunk may end.
pub open spec fn is_break(c: char) -> bool {
    c == '.' || c == '?' || c == '!' || c == '\n'
}

/// The chunks committed after reading `s`, and the text still pending.
pub open spec fn scan(s: Seq<char>) -> (Seq<Seq<char>>, Seq<char>)
    decreases s.len(),
{
    if s.len() == 0 {
        (Seq::empty(), Seq::empty())
    } else {
        let prev = scan(s.drop_last());
        let cur = prev.1.push(s.last());
        if is_break(s.last()) && trim(cur).len() >= MIN_CHUNK_CHARS {
            (prev.0.push(trim(cur)), Seq::empty())
        } else {
            (prev.0, cur)
        }
    }
}

/// The chunks of `s`: the committed ones, then the trimmed rest if it is
/// not empty; the whole of `s` when that leaves nothing.
pub open spec fn chunks_of(s: Seq<char>) -> Seq<Seq<char>> {
    let done = scan(s).0;
    let rest = trim(scan(s).1);
    let all = if rest.len() > 0 { done.push(rest) } else { done };
    if all.len() == 0 { seq![s] } else { all }
}

/// All the strings of `q`, one after the other.
pub open spec fn concat(q: Seq<Seq<char>>) -> Seq<char>
    decreases q.len(),
{
    if q.len() == 0 {
        Seq::empty()
    } else {
        concat(q.drop_last()) + q.last()
    }
}

proof fn lemma_scan(s: Seq<char>)
    ensures
        non_ws(concat(scan(s).0)) + non_ws(scan(s).1) == non_ws(s),
        forall|i: int|
            0 <= i < scan(s).0.len() ==> (#[trigger] scan(s).0[i]).len() >= MIN_CHUNK_CHARS
                && !is_ws(scan(s).0[i][0]) && !is_ws(scan(s).0[i].last()),
        scan(s).0.len() == 0 ==> scan(s).1 == s,
    decreases s.len(),
{
    if s.len() == 0 {
        assert(non_ws(concat(scan(s).0)) + non_ws(scan(s).1) =~= non_ws(s));
    } else {
        let p = s.drop_last();
        let x = s.last();
        lemma_scan(p);
        let prev = scan(p);
        let cur = prev.1.push(x);
        assert(cur.drop_last() =~= prev.1);
        assert(s =~= p.push(x));
        if is_break(x) && trim(cur).len() >= MIN_CHUNK_CHARS {
            let q = prev.0.push(trim(cur));
            assert(q.drop_last() =~= prev.0);
            lemma_non_ws_add(concat(prev.0), trim(cur));
            lemma_non_ws_trim(cur);
            lemma_trim_shape(cur);
            assert(non_ws(Seq::<char>::empty()) =~= Seq::<char>::empty());
            if is_ws(x) {
                assert(non_ws(cur) == non_ws(prev.1));
                assert(non_ws(s) == non_ws(p));
            } else {
                assert(non_ws(cur) == non_ws(prev.1).push(x));
                assert(non_ws(s) == non_ws(p).push(x));
            }
            assert(non_ws(concat(scan(s).0)) + non_ws(scan(s).1) =~= non_ws(s));
            assert forall|i: int| 0 <= i < q.len() implies (#[trigger] q[i]).len()
                >= MIN_CHUNK_CHARS && !is_ws(q[i][0]) && !is_ws(q[i].last()) by {
                if i < prev.0.len() {
                    assert(q[i] == prev.0[i]);
                }
            }
        } else {
            if is_ws(x) {
                assert(non_ws(cur) == non_ws(prev.1));
                assert(non_ws(s) == non_ws(p));
            } else {
                assert(non_ws(cur) == non_ws(prev.1).push(x));
                assert(non_ws(s) == non_ws(p).push(x));
            }
            assert(non_ws(concat(scan(s).0)) + non_ws(scan(s).1) =~= non_ws(s));
        }
    }
}

/// No text is lost by chunking: the chunks, read one after the other, hold
/// every non-whitespace character of the text, in order, and nothing else.
pub proof fn lemma_chunks_keep_text(s: Seq<char>)
    ensures
        non_ws(concat(chunks_of(s))) == non_ws(s),
{
    lemma_scan(s);
    let done = scan(s).0;
    let rest = trim(scan(s).1);
    lemma_non_ws_trim(scan(s).1);
    let all = if rest.len() > 0 { done.push(rest) } else { done };
    if rest.len() > 0 {
        assert(all.drop_last() =~= done);
        lemma_non_ws_add(concat(done), rest);
    } else {
        assert(non_ws(rest) =~= Seq::<char>::empty());
        assert(non_ws(concat(done)) + Seq::<char>::empty() =~= non_ws(concat(done)));
    }
    if all.len() == 0 {
        let one = seq![s];
        assert(one.drop_last() =~= Seq::<Seq<char>>::empty());
        assert(one.last() == s);
        assert(concat(one.drop_last()) =~= Seq::<char>::empty());
        assert(Seq::<char>::empty() + s =~= s);
        assert(concat(one) == s);
    }
}

/// The untrimmed pieces of text that `scan` commits, in order.
pub open spec fn scan_pieces(s: Seq<char>) -> Seq<Seq<char>>
    decreases s.len(),
{
    if s.len() == 0 {
        Seq::empty()
    } else {
        let prev = scan(s.drop_last());
        let cur = prev.1.push(s.last());
        if is_break(s.last()) && trim(cur).len() >= MIN_CHUNK_CHARS {
            scan_pieces(s.drop_last()).push(cur)
        } else {
            scan_pieces(s.drop_last())
        }
    }
}

proof fn lemma_scan_pieces(s: Seq<char>)
    ensures
        scan_pieces(s).len() == scan(s).0.len(),
        forall|i: int| 0 <= i < scan(s).0.len() ==> #[trigger] scan(s).0[i] == trim(scan_pieces(s)[i]),
        concat(scan_pieces(s)) + scan(s).1 == s,
    decreases s.len(),
{
    if s.len() == 0 {
        assert(concat(scan_pieces(s)) + scan(s).1 =~= s);
    } else {
        let p = s.drop_last();
        lemma_scan_pieces(p);
        let prev = scan(p);
        let cur = prev.1.push(s.last());
        assert(s =~= p.push(s.last()));
        if is_break(s.last()) && trim(cur).len() >= MIN_CHUNK_CHARS {
            let q = scan_pieces(p).push(cur);
            assert(q.drop_last() =~= scan_pieces(p));
            assert(concat(q) == concat(scan_pieces(p)) + cur);
            assert(concat(q) + scan(s).1 =~= s);
            assert forall|i: int| 0 <= i < scan(s).0.len() implies #[trigger] scan(s).0[i] == trim(
                scan_pieces(s)[i],
            ) by {
                if i < prev.0.len() {
                    assert(scan(s).0[i] == prev.0[i]);
                    assert(scan_pieces(s)[i] == scan_pieces(p)[i]);
                }
            }
        } else {
            assert(concat(scan_pieces(s)) + scan(s).1 =~= s);
        }
    }
}

/// The chunks cut the text into consecutive pieces: unless the text is all
/// whitespace, it is the concatenation of pieces, one per chunk and in the
/// same order, and each chunk is its piece trimmed.
pub proof fn lemma_chunks_partition(s: Seq<char>)
    requires
        !all_ws(s),
    ensures
        exists|pieces: Seq<Seq<char>>|
            pieces.len() == chunks_of(s).len() && concat(pieces) == s && forall|i: int|
                0 <= i < pieces.len() ==> #[trigger] chunks_of(s)[i] == trim(pieces[i]),
{
    lemma_scan(s);
    lemma_scan_pieces(s);
    let done = scan(s).0;
    let raw = scan_pieces(s);
    let tail = scan(s).1;
    let rest = trim(tail);
    lemma_trim_shape(tail);
    lemma_trim_shape(s);
    let chunks = chunks_of(s);
    if rest.len() > 0 {
        let pieces = raw.push(tail);
        assert(pieces.drop_last() =~= raw);
        assert(concat(pieces) == concat(raw) + tail);
        assert(chunks == done.push(rest));
        assert forall|i: int| 0 <= i < pieces.len() implies #[trigger] chunks[i] == trim(pieces[i]) by {
            if i < raw.len() {
                assert(chunks[i] == done[i]);
                assert(pieces[i] == raw[i]);
            }
        }
        assert(pieces.len() == chunks.len() && concat(pieces) == s);
    } else {
        assert(done.len() > 0);
        assert(chunks == done);
        let n = raw.len() - 1;
        let last = raw[n] + tail;
        let pieces = raw.drop_last().push(last);
        assert(pieces.drop_last() =~= raw.drop_last());
        assert(raw.drop_last().push(raw[n]) =~= raw);
        assert(concat(raw) == concat(raw.drop_last()) + raw[n]);
        assert(concat(pieces) == concat(raw.drop_last()) + last);
        assert(concat(pieces) =~= concat(raw) + tail);
        assert(done[n] == trim(raw[n]));
        assert(!all_ws(raw[n])) by {
            lemma_trim_shape(raw[n]);
        }
        lemma_trim_ws_suffix(raw[n], tail);
        assert forall|i: int| 0 <= i < pieces.len() implies #[trigger] chunks[i] == trim(pieces[i]) by {
            if i < n {
                assert(chunks[i] == done[i]);
                assert(pieces[i] == raw[i]);
            }
        }
        assert(pieces.len() == chunks.len() && concat(pieces) == s);
    }
}

proof fn lemma_scan_pieces_end(s: Seq<char>)
    ensures
        forall|i: int|
            0 <= i < scan_pieces(s).len() ==> (#[trigger] scan_pieces(s)[i]).len() > 0 && is_break(
                scan_pieces(s)[i].last(),
            ) && no_early_commit(scan_pieces(s)[i]) && trim(scan_pieces(s)[i]).len()
                >= MIN_CHUNK_CHARS,
        quiet(scan(s).1),
    decreases s.len(),
{
    lemma_scan_quiet(s);
    if s.len() > 0 {
        let p = s.drop_last();
        let x = s.last();
        lemma_scan_pieces_end(p);
        lemma_scan_quiet(p);
        let prev = scan(p);
        let cur = prev.1.push(x);
        if is_break(x) && trim(cur).len() >= MIN_CHUNK_CHARS {
            assert forall|k: int| 0 <= k < cur.len() - 1 && is_break(#[trigger] cur[k]) implies trim(
                cur.take(k + 1),
            ).len() < MIN_CHUNK_CHARS by {
                assert(cur.take(k + 1) =~= prev.1.take(k + 1));
                assert(cur[k] == prev.1[k]);
            }
            let q = scan_pieces(p).push(cur);
            assert forall|i: int| 0 <= i < q.len() implies (#[trigger] q[i]).len() > 0 && is_break(
                q[i].last(),
            ) && no_early_commit(q[i]) && trim(q[i]).len() >= MIN_CHUNK_CHARS by {
                if i < scan_pieces(p).len() {
                    assert(q[i] == scan_pieces(p)[i]);
                }
            }
        }
    }
}

/// Chunks end at sentence breaks: unless the text is all whitespace, it is
/// cut into consecutive pieces, one per chunk, each chunk being its piece
/// trimmed, such that every chunk but the last holds at least 30
/// characters, every piece but the last ends in `.`, `?`, `!` or a
/// newline, and within a piece no earlier `.`, `?`, `!` or newline closes a
/// prefix that trims to 30 or more characters unless only whitespace
/// follows it. So a chunk ends at the first such break after 30 characters
/// of text: for `A + "\n" + B` where `A` has no break and trims to 30 or
/// more characters, the first chunk is `A` trimmed.
pub proof fn lemma_chunks_end_at_breaks(s: Seq<char>)
    requires
        !all_ws(s),
    ensures
        exists|pieces: Seq<Seq<char>>|
            {
                &&& pieces.len() == chunks_of(s).len()
                &&& concat(pieces) == s
                &&& forall|i: int| 0 <= i < pieces.len() ==> #[trigger] chunks_of(s)[i] == trim(pieces[i])
                &&& forall|i: int| 0 <= i < pieces.len() - 1 ==> (#[trigger] chunks_of(s)[i]).len() >= 30
                &&& forall|i: int|
                    0 <= i < pieces.len() - 1 ==> {
                        let c = (#[trigger] pieces[i]).last();
                        c == '.' || c == '?' || c == '!' || c == '\n'
                    }
                &&& forall|i: int, k: int|
                    0 <= i < pieces.len() && 0 <= k < pieces[i].len() - 1 && ({
                        let c = #[trigger] pieces[i][k];
                        c == '.' || c == '?' || c == '!' || c == '\n'
                    }) && trim(pieces[i].take(k + 1)).len() >= 30 ==> all_ws(pieces[i].skip(k + 1))
            },
{
    lemma_scan(s);
    lemma_scan_pieces(s);
    lemma_scan_pieces_end(s);
    lemma_chunks_shape(s);
    let done = scan(s).0;
    let raw = scan_pieces(s);
    let tail = scan(s).1;
    let rest = trim(tail);
    lemma_trim_shape(tail);
    lemma_trim_shape(s);
    let chunks = chunks_of(s);
    if rest.len() > 0 {
        let pieces = raw.push(tail);
        assert(pieces.drop_last() =~= raw);
        assert(concat(pieces) == concat(raw) + tail);
        assert(chunks == done.push(rest));
        assert forall|i: int| 0 <= i < pieces.len() implies #[trigger] chunks[i] == trim(pieces[i]) by {
            if i < raw.len() {
                assert(chunks[i] == done[i]);
                assert(pieces[i] == raw[i]);
            }
        }
        assert forall|i: int| 0 <= i < pieces.len() - 1 implies {
            let c = (#[trigger] pieces[i]).last();
            c == '.' || c == '?' || c == '!' || c == '\n'
        } by {
            assert(pieces[i] == raw[i]);
        }
        assert forall|i: int, k: int|
            0 <= i < pieces.len() && 0 <= k < pieces[i].len() - 1 && ({
                let c = #[trigger] pieces[i][k];
                c == '.' || c == '?' || c == '!' || c == '\n'
            }) && trim(pieces[i].take(k + 1)).len() >= 30 implies all_ws(pieces[i].skip(k + 1)) by {
            if i < raw.len() {
                assert(pieces[i] == raw[i]);
                assert(is_break(raw[i][k]));
            } else {
                assert(pieces[i] == tail);
                assert(is_break(tail[k]));
            }
        }
        assert(pieces.len() == chunks.len() && concat(pieces) == s);
    } else {
        assert(done.len() > 0);
        assert(chunks == done);
        let n = raw.len() - 1;
        let last = raw[n] + tail;
        let pieces = raw.drop_last().push(last);
        assert(pieces.drop_last() =~= raw.drop_last());
        assert(raw.drop_last().push(raw[n]) =~= raw);
        assert(concat(raw) == concat(raw.drop_last()) + raw[n]);
        assert(concat(pieces) == concat(raw.drop_last()) + last);
        assert(concat(pieces) =~= concat(raw) + tail);
        assert(done[n] == trim(raw[n]));
        assert(!all_ws(raw[n])) by {
            lemma_trim_shape(raw[n]);
        }
        lemma_trim_ws_suffix(raw[n], tail);
        assert forall|i: int| 0 <= i < pieces.len() implies #[trigger] chunks[i] == trim(pieces[i]) by {
            if i < n {
                assert(chunks[i] == done[i]);
                assert(pieces[i] == raw[i]);
            }
        }
        assert forall|i: int| 0 <= i < pieces.len() - 1 implies {
            let c = (#[trigger] pieces[i]).last();
            c == '.' || c == '?' || c == '!' || c == '\n'
        } by {
            assert(pieces[i] == raw[i]);
        }
        assert forall|i: int, k: int|
            0 <= i < pieces.len() && 0 <= k < pieces[i].len() - 1 && ({
                let c = #[trigger] pieces[i][k];
                c == '.' || c == '?' || c == '!' || c == '\n'
            }) && trim(pieces[i].take(k + 1)).len() >= 30 implies all_ws(pieces[i].skip(k + 1)) by {
            if i < n {
                assert(pieces[i] == raw[i]);
                assert(is_break(raw[i][k]));
            } else {
                assert(pieces[i] == last);
                let r = raw[n];
                if k < r.len() - 1 {
                    assert(last[k] == r[k]);
                    assert(last.take(k + 1) =~= r.take(k + 1));
                    assert(is_break(r[k]));
                } else {
                    assert forall|j: int| 0 <= j < last.skip(k + 1).len() implies is_ws(
                        #[trigger] last.skip(k + 1)[j],
                    ) by {
                        assert(last.skip(k + 1)[j] == tail[k + 1 + j - r.len()]);
                    }
                }
            }
        }
        assert(pieces.len() == chunks.len() && concat(pieces) == s);
    }
}

/// Every chunk but the last holds at least `MIN_CHUNK_CHARS` characters;
/// there is always at least one chunk; and unless the text is all
/// whitespace, every chunk is non-empty and starts and ends with a
/// non-whitespace character.
pub proof fn lemma_chunks_shape(s: Seq<char>)
    ensures
        chunks_of(s).len() >= 1,
        forall|i: int|
            0 <= i < chunks_of(s).len() - 1 ==> (#[trigger] chunks_of(s)[i]).len()
                >= MIN_CHUNK_CHARS,
        !all_ws(s) ==> forall|i: int|
            0 <= i < chunks_of(s).len() ==> (#[trigger] chunks_of(s)[i]).len() > 0 && !is_ws(
                chunks_of(s)[i][0],
            ) && !is_ws(chunks_of(s)[i].last()),
{
    lemma_scan(s);
    let done = scan(s).0;
    let rest = trim(scan(s).1);
    lemma_trim_shape(scan(s).1);
    let all = if rest.len() > 0 { done.push(rest) } else { done };
    assert forall|i: int| 0 <= i < all.len() implies (#[trigger] all[i]).len() > 0 && !is_ws(
        all[i][0],
    ) && !is_ws(all[i].last()) && (i < all.len() - 1 ==> all[i].len() >= MIN_CHUNK_CHARS) by {
        if i < done.len() {
            assert(all[i] == done[i]);
        }
    }
    if all.len() == 0 {
        lemma_trim_shape(s);
    }
}

/// No break inside `c` (before its last character) ends a prefix long
/// enough to be committed.
pub open spec fn no_early_commit(c: Seq<char>) -> bool {
    forall|k: int|
        0 <= k < c.len() - 1 && is_break(#[trigger] c[k]) ==> trim(c.take(k + 1)).len()
            < MIN_CHUNK_CHARS
}

/// No break inside `cur` ends a prefix long enough to be committed.
pub open spec fn quiet(cur: Seq<char>) -> bool {
    forall|k: int|
        0 <= k < cur.len() && is_break(#[trigger] cur[k]) ==> trim(cur.take(k + 1)).len()
            < MIN_CHUNK_CHARS
}

proof fn lemma_trim_no_early(u: Seq<char>)
    requires
        no_early_commit(u),
    ensures
        no_early_commit(trim(u)),
{
    let d = trim(u);
    let a = lemma_trim_offset(u);
    assert forall|k: int| 0 <= k < d.len() - 1 && is_break(#[trigger] d[k]) implies trim(
        d.take(k + 1),
    ).len() < MIN_CHUNK_CHARS by {
        assert(d[k] == u[a + k]);
        assert(u.take(a + k + 1) =~= u.take(a) + d.take(k + 1));
        lemma_trim_ws_prefix(u.take(a), d.take(k + 1));
    }
}

proof fn lemma_scan_quiet(s: Seq<char>)
    ensures
        forall|i: int| 0 <= i < scan(s).0.len() ==> no_early_commit(#[trigger] scan(s).0[i]),
        quiet(scan(s).1),
    decreases s.len(),
{
    if s.len() > 0 {
        let p = s.drop_last();
        let x = s.last();
        lemma_scan_quiet(p);
        let prev = scan(p);
        let cur = prev.1.push(x);
        assert forall|k: int| 0 <= k < prev.1.len() implies cur.take(k + 1) == prev.1.take(k + 1)
            && cur[k] == prev.1[k] by {
            assert(cur.take(k + 1) =~= prev.1.take(k + 1));
        }
        assert(no_early_commit(cur));
        assert(cur.take(cur.len() as int) =~= cur);
        if is_break(x) && trim(cur).len() >= MIN_CHUNK_CHARS {
            lemma_trim_no_early(cur);
            let q = prev.0.push(trim(cur));
            assert forall|i: int| 0 <= i < q.len() implies no_early_commit(#[trigger] q[i]) by {
                if i < prev.0.len() {
                    assert(q[i] == prev.0[i]);
                }
            }
        }
    }
}

proof fn lemma_scan_prefix(c: Seq<char>, j: int)
    requires
        0 <= j < c.len(),
        no_early_commit(c),
    ensures
        scan(c.take(j)) == (Seq::<Seq<char>>::empty(), c.take(j)),
    decreases j,
{
    if j == 0 {
        assert(c.take(0) =~= Seq::<char>::empty());
    } else {
        lemma_scan_prefix(c, j - 1);
        assert(c.take(j).drop_last() =~= c.take(j - 1));
        assert(c.take(j).last() == c[j - 1]);
        assert(c.take(j - 1).push(c[j - 1]) =~= c.take(j));
    }
}

proof fn lemma_resplit_one(c: Seq<char>)
    requires
        c.len() > 0,
        !is_ws(c[0]),
        !is_ws(c.last()),
        no_early_commit(c),
    ensures
        chunks_of(c) == seq![c],
{
    let n = c.len();
    lemma_trim_fixed(c);
    lemma_scan_prefix(c, n - 1);
    assert(c.drop_last() =~= c.take(n - 1));
    assert(c.take(n - 1).push(c.last()) =~= c);
    assert(trim(Seq::<char>::empty()) =~= Seq::<char>::empty());
    if is_break(c.last()) && trim(c).len() >= MIN_CHUNK_CHARS {
        assert(scan(c) == (seq![c], Seq::<char>::empty()));
        assert(chunks_of(c) =~= seq![c]);
    } else {
        assert(scan(c) == (Seq::<Seq<char>>::empty(), c));
        assert(chunks_of(c) =~= seq![c]);
    }
}

/// Chunks are final: unless the text is all whitespace, splitting any of
/// its chunks again gives back that chunk alone.
pub proof fn lemma_chunks_resplit(s: Seq<char>)
    requires
        !all_ws(s),
    ensures
        forall|i: int|
            0 <= i < chunks_of(s).len() ==> chunks_of(#[trigger] chunks_of(s)[i]) == seq![
                chunks_of(s)[i],
            ],
{
    lemma_scan(s);
    lemma_scan_quiet(s);
    lemma_chunks_shape(s);
    let done = scan(s).0;
    let cur = scan(s).1;
    let rest = trim(cur);
    assert(no_early_commit(cur));
    lemma_trim_no_early(cur);
    lemma_trim_shape(cur);
    assert forall|i: int| 0 <= i < chunks_of(s).len() implies chunks_of(
        #[trigger] chunks_of(s)[i],
    ) == seq![chunks_of(s)[i]] by {
        let c = chunks_of(s)[i];
        if i < done.len() {
            assert(c == done[i]);
        } else {
            assert(c == rest);
        }
        lemma_resplit_one(c);
    }
}

/// Whether `c` ends a sentence.
pub fn is_sentence_break(c: char) -> (b: bool)
    ensures
        b == is_break(c),
{
    c == '.' || c == '?' || c == '!' || c == '\n'
}

/// Splits text into sentence-sized chunks. A chunk may end after `.`, `?`,
/// `!` or a newline, but only once it holds at least `MIN_CHUNK_CHARS`
/// characters, so short fragments stay glued to the next sentence.
pub fn split_into_chunks(text: &str) -> (chunks: VecDeque<String>)
    ensures
        views(chunks@) == chunks_of(text@),
{
    let v = chars_of(text);
    let n = v.len();
    let mut chunks: VecDeque<String> = VecDeque::new();
    let mut start: usize = 0;
    let mut i: usize = 0;
    while i < n
        invariant
            n == v.len(),
            v@ == text@,
            start <= i <= n,
            views(chunks@) == scan(v@.take(i as int)).0,
            v@.subrange(start as int, i as int) == scan(v@.take(i as int)).1,
        decreases n - i,
    {
        let ghost prev = v@.take(i as int);
        assert(v@.take(i + 1).drop_last() =~= prev);
        assert(v@.take(i + 1).last() == v@[i as int]);
        assert(v@.subrange(start as int, i + 1) =~= v@.subrange(start as int, i as int).push(
            v@[i as int],
        ));
        if is_sentence_break(v[i]) {
            let (lo, hi) = trim_range(&v, start, i + 1);
            if hi - lo >= MIN_CHUNK_CHARS {
                let chunk = string_of(&v, lo, hi);
                let ghost before = chunks@;
                chunks.push_back(chunk);
                assert(views(chunks@) =~= views(before).push(chunk@));
                start = i + 1;
                assert(v@.subrange(start as int, i + 1) =~= Seq::<char>::empty());
            }
        }
        i = i + 1;
    }
    assert(v@.take(n as int) =~= v@);
    let (lo, hi) = trim_range(&v, start, n);
    if lo < hi {
        let tail = string_of(&v, lo, hi);
        let ghost before = chunks@;
        chunks.push_back(tail);
        assert(views(chunks@) =~= views(before).push(tail@));
    }
    if chunks.len() == 0 {
        let whole = string_of(&v, 0, n);
        assert(v@.subrange(0, n as int) =~= v@);
        chunks.push_back(whole);
        assert(views(chunks@) =~= seq![text@]);
    }
    chunks
}

/// The voice used when none is chosen.
pub open spec fn default_voice_spec() -> Seq<char> {
    "en-IE-EmilyNeural"@
}

/// The voice used when none is chosen.
pub fn default_voice() -> (v: String)
    ensures
        v@ == default_voice_spec(),
{
    String::from_str("en-IE-EmilyNeural")
}

/// The Edge voice list offers twenty voices, each once, among them Aria,
/// Jenny and Guy (US) and Emily (Ireland): US, UK, Australian, Canadian and
/// Irish English voices, in this order.
pub proof fn lemma_edge_voices()
    ensures
        edge_voices() == seq![
            "en-US-AriaNeural"@,
            "en-US-JennyNeural"@,
            "en-US-GuyNeural"@,
            "en-US-DavisNeural"@,
            "en-US-AmberNeural"@,
            "en-US-AnaNeural"@,
            "en-US-MichelleNeural"@,
            "en-US-AndrewNeural"@,
            "en-US-EmmaNeural"@,
            "en-US-BrianNeural"@,
            "en-GB-LibbyNeural"@,
            "en-GB-MaisieNeural"@,
            "en-GB-RyanNeural"@,
            "en-GB-SoniaNeural"@,
            "en-AU-NatashaNeural"@,
            "en-AU-WilliamNeural"@,
            "en-CA-ClaraNeural"@,
            "en-CA-LiamNeural"@,
            "en-IE-EmilyNeural"@,
            "en-IE-ConnorNeural"@,
        ],
        edge_voices().len() == 20,
        edge_voices().no_duplicates(),
        edge_voices().contains("en-US-AriaNeural"@),
        edge_voices().contains("en-US-JennyNeural"@),
        edge_voices().contains("en-US-GuyNeural"@),
        edge_voices().contains("en-IE-EmilyNeural"@),
{
    reveal_strlit("en-US-AriaNeural");
    reveal_strlit("en-US-JennyNeural");
    reveal_strlit("en-US-GuyNeural");
    reveal_strlit("en-US-DavisNeural");
    reveal_strlit("en-US-AmberNeural");
    reveal_strlit("en-US-AnaNeural");
    reveal_strlit("en-US-MichelleNeural");
    reveal_strlit("en-US-AndrewNeural");
    reveal_strlit("en-US-EmmaNeural");
    reveal_strlit("en-US-BrianNeural");
    reveal_strlit("en-GB-LibbyNeural");
    reveal_strlit("en-GB-MaisieNeural");
    reveal_strlit("en-GB-RyanNeural");
    reveal_strlit("en-GB-SoniaNeural");
    reveal_strlit("en-AU-NatashaNeural");
    reveal_strlit("en-AU-WilliamNeural");
    reveal_strlit("en-CA-ClaraNeural");
    reveal_strlit("en-CA-LiamNeural");
    reveal_strlit("en-IE-EmilyNeural");
    reveal_strlit("en-IE-ConnorNeural");
    let v = edge_voices();
    assert(v[0] == "en-US-AriaNeural"@);
    assert(v[1] == "en-US-JennyNeural"@);
    assert(v[2] == "en-US-GuyNeural"@);
    assert(v[18] == "en-IE-EmilyNeural"@);
    assert forall|i: int, j: int| 0 <= i < v.len() && 0 <= j < v.len() && i != j implies v[i] != v[j] by {
        if v[i] == v[j] {
            assert(v[i].len() == v[j].len());
            assert(v[i][3] == v[j][3]);
            assert(v[i][6] == v[j][6]);
            assert(v[i][7] == v[j][7]);
        }
    }
}

/// The Edge voices offered to the user, in menu order.
pub open spec fn edge_voices() -> Seq<Seq<char>> {
    seq![
        "en-US-AriaNeural"@,
        "en-US-JennyNeural"@,
        "en-US-GuyNeural"@,
        "en-US-DavisNeural"@,
        "en-US-AmberNeural"@,
        "en-US-AnaNeural"@,
        "en-US-MichelleNeural"@,
        "en-US-AndrewNeural"@,
        "en-US-EmmaNeural"@,
        "en-US-BrianNeural"@,
        "en-GB-LibbyNeural"@,
        "en-GB-MaisieNeural"@,
        "en-GB-RyanNeural"@,
        "en-GB-SoniaNeural"@,
        "en-AU-NatashaNeural"@,
        "en-AU-WilliamNeural"@,
        "en-CA-ClaraNeural"@,
        "en-CA-LiamNeural"@,
        "en-IE-EmilyNeural"@,
        "en-IE-ConnorNeural"@,
    ]
}

/// The Edge voices offered to the user, in menu order.
pub fn list_voices() -> (v: Vec<String>)
    ensures
        views(v@) == edge_voices(),
{
    let mut v: Vec<String> = Vec::new();
    v.push(String::from_str("en-US-AriaNeural"));
    v.push(String::from_str("en-US-JennyNeural"));
    v.push(String::from_str("en-US-GuyNeural"));
    v.push(String::from_str("en-US-DavisNeural"));
    v.push(String::from_str("en-US-AmberNeural"));
    v.push(String::from_str("en-US-AnaNeural"));
    v.push(String::from_str("en-US-MichelleNeural"));
    v.push(String::from_str("en-US-AndrewNeural"));
    v.push(String::from_str("en-US-EmmaNeural"));
    v.push(String::from_str("en-US-BrianNeural"));
    v.push(String::from_str("en-GB-LibbyNeural"));
    v.push(String::from_str("en-GB-MaisieNeural"));
    v.push(String::from_str("en-GB-RyanNeural"));
    v.push(String::from_str("en-GB-SoniaNeural"));
    v.push(String::from_str("en-AU-NatashaNeural"));
    v.push(String::from_str("en-AU-WilliamNeural"));
    v.push(String::from_str("en-CA-ClaraNeural"));
    v.push(String::from_str("en-CA-LiamNeural"));
    v.push(String::from_str("en-IE-EmilyNeural"));
    v.push(String::from_str("en-IE-ConnorNeural"));
    assert(views(v@) =~= edge_voices());
    v
}

/// The rate change, in percent, that Edge is asked for at `speed`
/// thousandths of normal speed: the difference from normal speed rounded to
/// whole percent, limited to -50%..+200%.
pub open spec fn rate_percent_spec(speed: int) -> int {
    clamp(round_div(speed - 1000, 10), -50, 200)
}

proof fn lemma_half_up(y: int)
    requires
        y >= 0,
    ensures
        (2 * y) / 20 == y / 10,
{
    assert((2 * y) / 20 == y / 10) by (nonlinear_arith)
        requires
            y >= 0,
    {
        let q = y / 10;
        let r = y % 10;
        assert(y == 10 * q + r && 0 <= r < 10);
        assert(2 * y == 20 * q + 2 * r && 0 <= 2 * r < 20);
    }
}

/// The rate is one linear scale through normal speed: a speed `s` between
/// half and three times normal (`500..=3000` thousandths) asks for
/// `(s - 1000) / 10` percent, rounded to the nearest integer with halves
/// away from zero; slower speeds ask for -50% and faster ones for +200%. So
/// slowing down by some amount changes the rate exactly as much, the other
/// way, as speeding up by the same amount.
pub proof fn lemma_rate_percent_scale(s: int)
    ensures
        500 <= s <= 3000 ==> rate_percent_spec(s) == (if s >= 1000 {
            (s - 1000 + 5) / 10
        } else {
            -((1000 - s + 5) / 10)
        }),
        s < 500 ==> rate_percent_spec(s) == -50,
        s > 3000 ==> rate_percent_spec(s) == 200,
        0 <= s <= 500 ==> rate_percent_spec(1000 - s) == -rate_percent_spec(1000 + s),
{
    if s >= 1000 {
        lemma_half_up(s - 1000 + 5);
    } else {
        lemma_half_up(1000 - s + 5);
    }
    if 0 <= s {
        lemma_half_up(s + 5);
    }
}

/// The rate change, in percent, for a speed in thousandths.
pub fn rate_percent(speed: i32) -> (r: i32)
    ensures
        r == rate_percent_spec(speed as int),
{
    let n: i64 = speed as i64 - 1000;
    assert(-3000000000 < n < 3000000000);
    let q: i64 = if n >= 0 {
        (2 * n + 10) / 20
    } else {
        let m: i64 = 0 - n;
        0 - (2 * m + 10) / 20
    };
    if q < -50 {
        -50
    } else if q > 200 {
        200
    } else {
        q as i32
    }
}

/// What a synthesis request asks Edge for.
#[derive(Debug)]
pub struct SpeechParams {
    pub voice_name: String,
    pub audio_format: String,
    pub pitch: i32,
    pub rate: i32,
    pub volume: i32,
}

/// The audio format requested from Edge.
pub open spec fn audio_format_spec() -> Seq<char> {
    "audio-24khz-48kbitrate-mono-mp3"@
}

/// The synthesis request for `voice` at `speed` thousandths of normal speed:
/// MP3 at 24 kHz, pitch and volume unchanged.
pub fn speech_params(voice: &String, speed: i32) -> (p: SpeechParams)
    ensures
        p.voice_name@ == voice@,
        p.audio_format@ == audio_format_spec(),
        p.pitch == 0,
        p.rate == rate_percent_spec(speed as int),
        p.volume == 0,
{
    SpeechParams {
        voice_name: voice.clone(),
        audio_format: String::from_str("audio-24khz-48kbitrate-mono-mp3"),
        pitch: 0,
        rate: rate_percent(speed),
        volume: 0,
    }
}

/// Whether the engine hands out the next chunk: a read is playing, a chunk
/// is pending, and the player holds fewer than two queued chunks.
pub open spec fn hands_out(playing: bool, pending: nat, queued: nat) -> bool {
    playing && pending > 0 && queued < 2
}

/// Whether a read is over: it was playing, nothing is pending and the player
/// has run dry.
pub open spec fn read_over(playing: bool, pending: nat, player_empty: bool) -> bool {
    playing && pending == 0 && player_empty
}

/// Stop is final for the read it stops: after Stop (nothing pending, not
/// playing) no further chunk is handed out and no end of read is reported,
/// whatever the player holds.
pub proof fn lemma_stop_ends_stream(queued: nat, player_empty: bool)
    ensures
        !hands_out(false, 0, queued),
        !read_over(false, 0, player_empty),
{
}

/// What follows a synthesis attempt.
#[derive(Debug, Clone, Copy, PartialEq, Eq, Structural)]
pub enum SynthNext {
    /// The audio is there.
    Done,
    /// The kept connection has died: drop it, connect again and retry once.
    Reconnect,
    /// The attempt on a fresh connection failed too: report the error.
    GiveUp,
}

/// The connection policy for one chunk: an attempt that worked is done; a
/// failed attempt on a kept connection is retried once on a new connection;
/// a failed attempt on a fresh connection is given up. So a chunk costs at
/// most two attempts.
pub fn after_synthesis(fresh: bool, ok: bool) -> (next: SynthNext)
    ensures
        next == (if ok {
            SynthNext::Done
        } else if fresh {
            SynthNext::GiveUp
        } else {
            SynthNext::Reconnect
        }),
{
    if ok {
        SynthNext::Done
    } else if fresh {
        SynthNext::GiveUp
    } else {
        SynthNext::Reconnect
    }
}

/// What a read needs of an Edge session: whether a read is playing, and
/// the chunks still to synthesise.
pub type ReadState = (bool, Seq<Seq<char>>);

/// A command's effect on the read state, and the step that answers it:
/// stop the player, the status to show, the first chunk to synthesise, and
/// whether to leave the loop. A new read drops what was pending and keeps
/// its own chunks after the first; Stop drops everything; Quit drops what
/// is pending and leaves; voice and speed changes leave the read alone.
pub open spec fn edge_command(st: ReadState, cmd: TtsCommand) -> (ReadState, (
    bool,
    Option<OverlayState>,
    Option<Seq<char>>,
    bool,
)) {
    match cmd {
        TtsCommand::Speak { text } => (
            (false, chunks_of(text@).drop_first()),
            (true, Some(OverlayState::Synthesizing), Some(chunks_of(text@)[0]), false),
        ),
        TtsCommand::Stop => ((false, Seq::empty()), (true, Some(OverlayState::Idle), None, false)),
        TtsCommand::Quit => ((st.0, Seq::empty()), (true, Some(OverlayState::Idle), None, true)),
        _ => (st, (false, None, None, false)),
    }
}

/// The read state once the first chunk of a read played (or failed), and
/// the status to show: reading, or idle.
pub open spec fn edge_first_chunk(st: ReadState, played: bool) -> (ReadState, OverlayState) {
    ((played || st.0, st.1), if played { OverlayState::Reading } else { OverlayState::Idle })
}

/// The read state after feeding a player that holds `queued` chunks, and
/// the chunk handed out for synthesis, if any.
pub open spec fn edge_next_chunk(st: ReadState, queued: nat) -> (ReadState, Option<Seq<char>>) {
    if hands_out(st.0, st.1.len(), queued) {
        ((st.0, st.1.drop_first()), Some(st.1[0]))
    } else {
        (st, None)
    }
}

/// The read state after looking for the end of a read, and whether it
/// ended.
pub open spec fn edge_finish(st: ReadState, player_empty: bool) -> (ReadState, bool) {
    let done = read_over(st.0, st.1.len(), player_empty);
    ((st.0 && !done, st.1), done)
}

/// What reaches the Edge loop: a command (with, for a new read, whether its
/// first chunk was synthesised, decoded and queued), or a wait that timed
/// out (with how many chunks the player holds and whether it has run dry
/// once the next chunk, if one was handed out, has been dealt with).
pub enum EdgeEvent {
    Command(TtsCommand, bool),
    Tick(usize, bool),
}

/// The Edge loop as it runs: the session's read state, whether the loop
/// has ended, the statuses shown so far, the chunks of the current read
/// (none once it is stopped), and those of them handed out for synthesis.
pub type EdgeLoop = (ReadState, bool, Seq<OverlayState>, Seq<Seq<char>>, Seq<Seq<char>>);

/// The Edge loop after one event, as the session's steps make it: a
/// command goes through `on_command` and, when a first chunk is handed out,
/// `on_first_chunk`; a timed-out wait goes through `next_chunk` and
/// `finish_if_done`, and shows "idle" when the read ends. Nothing happens
/// once the loop has ended.
pub open spec fn edge_loop_step(st: EdgeLoop, ev: EdgeEvent) -> EdgeLoop {
    if st.1 {
        st
    } else {
        match ev {
            EdgeEvent::Command(cmd, played) => {
                let (r1, a) = edge_command(st.0, cmd);
                let shown1 = match a.1 {
                    Some(o) => st.2.push(o),
                    None => st.2,
                };
                let (current, handed) = match cmd {
                    TtsCommand::Speak { text } => (chunks_of(text@), seq![a.2->0]),
                    TtsCommand::Stop => (Seq::empty(), Seq::empty()),
                    TtsCommand::Quit => (Seq::empty(), Seq::empty()),
                    _ => (st.3, st.4),
                };
                match a.2 {
                    Some(_) => {
                        let (r2, o) = edge_first_chunk(r1, played);
                        (r2, a.3, shown1.push(o), current, handed)
                    },
                    None => (r1, a.3, shown1, current, handed),
                }
            },
            EdgeEvent::Tick(queued, player_empty) => {
                let (r1, c) = edge_next_chunk(st.0, queued as nat);
                let handed = match c {
                    Some(x) => st.4.push(x),
                    None => st.4,
                };
                let (r2, done) = edge_finish(r1, player_empty);
                (r2, false, if done { st.2.push(OverlayState::Idle) } else { st.2 }, st.3, handed)
            },
        }
    }
}

/// The Edge loop after a run of events from start-up: nothing playing or
/// pending, nothing shown, no read.
pub open spec fn edge_loop_run(evs: Seq<EdgeEvent>) -> EdgeLoop
    decreases evs.len(),
{
    if evs.len() == 0 {
        ((false, Seq::empty()), false, Seq::empty(), Seq::empty(), Seq::empty())
    } else {
        edge_loop_step(edge_loop_run(evs.drop_last()), evs.last())
    }
}

/// Whether status `b` may be shown right after status `a`: "reading" only
/// after "synthesizing", and after "synthesizing" only "reading" or "idle".
pub open spec fn status_follows(a: OverlayState, b: OverlayState) -> bool {
    &&& b == OverlayState::Reading ==> a == OverlayState::Synthesizing
    &&& a == OverlayState::Synthesizing ==> b == OverlayState::Reading || b == OverlayState::Idle
}

/// What holds of the Edge loop at every point: each status may follow the
/// one before it, the first is not "reading" and the last not
/// "synthesizing"; and while the loop runs, the last status is "reading"
/// exactly while a read plays, and the chunks handed out for synthesis,
/// followed by those pending, are exactly the chunks of the current read.
pub open spec fn edge_loop_ok(st: EdgeLoop) -> bool {
    let shown = st.2;
    &&& forall|i: int, j: int|
        #![trigger shown[i], shown[j]]
        0 <= i && j == i + 1 && j < shown.len() ==> status_follows(shown[i], shown[j])
    &&& shown.len() > 0 ==> shown[0] != OverlayState::Reading
    &&& shown.len() > 0 ==> shown.last() != OverlayState::Synthesizing
    &&& !st.1 ==> (st.0.0 <==> shown.len() > 0 && shown.last() == OverlayState::Reading)
    &&& !st.1 ==> st.4 + st.0.1 == st.3
}

proof fn lemma_push_status(shown: Seq<OverlayState>, o: OverlayState)
    ensures
        forall|i: int| 0 <= i < shown.len() ==> #[trigger] shown.push(o)[i] == shown[i],
        shown.push(o).last() == o,
        shown.push(o).len() == shown.len() + 1,
{
}

proof fn lemma_edge_loop_step_ok(st: EdgeLoop, ev: EdgeEvent)
    requires
        edge_loop_ok(st),
    ensures
        edge_loop_ok(edge_loop_step(st, ev)),
{
    let shown = st.2;
    if !st.1 {
        match ev {
            EdgeEvent::Command(cmd, played) => match cmd {
                TtsCommand::Speak { text } => {
                    lemma_chunks_shape(text@);
                    let c = chunks_of(text@);
                    assert(seq![c[0]] + c.drop_first() =~= c);
                    let last = if played { OverlayState::Reading } else { OverlayState::Idle };
                    let a = shown.push(OverlayState::Synthesizing);
                    lemma_push_status(shown, OverlayState::Synthesizing);
                    lemma_push_status(a, last);
                    assert(edge_loop_step(st, ev).2 == a.push(last));
                },
                TtsCommand::Stop => {
                    lemma_push_status(shown, OverlayState::Idle);
                    assert(Seq::<Seq<char>>::empty() + Seq::<Seq<char>>::empty() =~= Seq::<Seq<char>>::empty());
                },
                TtsCommand::Quit => {
                    lemma_push_status(shown, OverlayState::Idle);
                },
                _ => {},
            },
            EdgeEvent::Tick(queued, player_empty) => {
                lemma_push_status(shown, OverlayState::Idle);
                let p = st.0.1;
                if hands_out(st.0.0, p.len(), queued as nat) {
                    assert(st.4.push(p[0]) + p.drop_first() =~= st.4 + p);
                }
            },
        }
    }
}

/// The Edge loop keeps its promises over any run of events. The statuses
/// of a read come in order: "reading" is only ever shown right after
/// "synthesizing", and "synthesizing" is followed by "reading" or "idle"
/// (Synthesizing, then Reading, then Idle once the read ends or is
/// stopped); while the loop runs, the last status is "reading" exactly
/// while a read plays. And only chunks of the current read are handed out,
/// in order: those handed out since it began, followed by those pending,
/// are exactly its chunks; after Stop nothing is pending, so no chunk of a
/// stopped read is synthesised later.
pub proof fn lemma_edge_loop(evs: Seq<EdgeEvent>)
    ensures
        edge_loop_ok(edge_loop_run(evs)),
    decreases evs.len(),
{
    if evs.len() > 0 {
        lemma_edge_loop(evs.drop_last());
        lemma_edge_loop_step_ok(edge_loop_run(evs.drop_last()), evs.last());
    } else {
        assert(Seq::<Seq<char>>::empty() + Seq::<Seq<char>>::empty() =~= Seq::<Seq<char>>::empty());
    }
}

/// The state of the Edge engine between events: the chunks still to
/// synthesise, whether a read is playing, and the voice and speed in use.
#[derive(Debug)]
pub struct EdgeSession {
    pub pending: VecDeque<String>,
    pub playing: bool,
    pub voice: String,
    pub speed: i32,
}

/// What the engine loop does in answer to a command.
#[derive(Debug)]
pub struct EdgeStep {
    /// Stop the player and drop what it has queued.
    pub stop_player: bool,
    /// The status to show, if it changes.
    pub overlay: Option<OverlayState>,
    /// The first chunk of a new read, to synthesise and play now.
    pub synthesize: Option<String>,
    /// Leave the loop.
    pub exit: bool,
}

impl EdgeSession {
    /// Whether a read is playing, and the chunks still to synthesise.
    pub open spec fn read_state(&self) -> ReadState {
        (self.playing, views(self.pending@))
    }

    /// The session at start-up: the chosen voice (or the default one when
    /// none is chosen) at the configured speed, nothing pending.
    pub fn new(initial_voice: String, initial_speed: i32) -> (s: Self)
        ensures
            s.pending@.len() == 0,
            !s.playing,
            s.read_state() == (false, Seq::<Seq<char>>::empty()),
            s.voice@ == (if initial_voice@.len() == 0 { default_voice_spec() } else { initial_voice@ }),
            s.speed == initial_speed,
    {
        let voice = if initial_voice.as_str().is_empty() {
            default_voice()
        } else {
            initial_voice
        };
        EdgeSession { pending: VecDeque::new(), playing: false, voice, speed: initial_speed }
    }

    /// Handles a command. A new read stops the current one, splits the text
    /// into chunks and hands out the first for synthesis; the rest wait.
    pub fn on_command(&mut self, cmd: TtsCommand) -> (step: EdgeStep)
        ensures
            (final(self).read_state(), (step.stop_player, step.overlay, opt_view(step.synthesize), step.exit))
                == edge_command(old(self).read_state(), cmd),
            match cmd {
                TtsCommand::Speak { text } => {
                    &&& step.stop_player
                    &&& step.overlay == Some(OverlayState::Synthesizing)
                    &&& step.synthesize is Some
                    &&& seq![step.synthesize->0@] + views(final(self).pending@) == chunks_of(text@)
                    &&& !final(self).playing
                    &&& !step.exit
                    &&& final(self).voice == old(self).voice
                    &&& final(self).speed == old(self).speed
                },
                TtsCommand::Stop => {
                    &&& step.stop_player
                    &&& step.overlay == Some(OverlayState::Idle)
                    &&& step.synthesize is None
                    &&& final(self).pending@.len() == 0
                    &&& !final(self).playing
                    &&& !step.exit
                    &&& final(self).voice == old(self).voice
                    &&& final(self).speed == old(self).speed
                },
                TtsCommand::SetVoice(v) => {
                    &&& !step.stop_player && step.overlay is None && step.synthesize is None
                    &&& !step.exit
                    &&& final(self).voice@ == (if v@.len() == 0 { default_voice_spec() } else { v@ })
                    &&& final(self).pending == old(self).pending
                    &&& final(self).playing == old(self).playing
                    &&& final(self).speed == old(self).speed
                },
                TtsCommand::SetSpeed(sp) => {
                    &&& !step.stop_player && step.overlay is None && step.synthesize is None
                    &&& !step.exit
                    &&& final(self).speed == clamp(sp as int, 500, 3000)
                    &&& final(self).pending == old(self).pending
                    &&& final(self).playing == old(self).playing
                    &&& final(self).voice == old(self).voice
                },
                TtsCommand::Quit => {
                    &&& step.stop_player
                    &&& step.overlay == Some(OverlayState::Idle)
                    &&& step.synthesize is None
                    &&& final(self).pending@.len() == 0
                    &&& step.exit
                    &&& final(self).playing == old(self).playing
                    &&& final(self).voice == old(self).voice
                    &&& final(self).speed == old(self).speed
                },
            },
    {
        match cmd {
            TtsCommand::Speak { text } => {
                let mut chunks = split_into_chunks(text.as_str());
                proof {
                    lemma_chunks_shape(text@);
                }
                let ghost all = chunks@;
                let first = chunks.pop_front();
                match first {
                    Some(c) => {
                        assert(views(all) =~= seq![c@] + views(chunks@));
                        assert(views(all).drop_first() =~= views(chunks@));
                        self.pending = chunks;
                        self.playing = false;
                        EdgeStep {
                            stop_player: true,
                            overlay: Some(OverlayState::Synthesizing),
                            synthesize: Some(c),
                            exit: false,
                        }
                    },
                    None => {
                        assert(false);
                        EdgeStep {
                            stop_player: true,
                            overlay: Some(OverlayState::Synthesizing),
                            synthesize: None,
                            exit: false,
                        }
                    },
                }
            },
            TtsCommand::Stop => {
                self.pending = VecDeque::new();
                self.playing = false;
                assert(views(self.pending@) =~= Seq::<Seq<char>>::empty());
                EdgeStep {
                    stop_player: true,
                    overlay: Some(OverlayState::Idle),
                    synthesize: None,
                    exit: false,
                }
            },
            TtsCommand::SetVoice(v) => {
                self.voice = if v.as_str().is_empty() {
                    default_voice()
                } else {
                    v
                };
                EdgeStep { stop_player: false, overlay: None, synthesize: None, exit: false }
            },
            TtsCommand::SetSpeed(sp) => {
                self.speed = clamp_speed(sp);
                EdgeStep { stop_player: false, overlay: None, synthesize: None, exit: false }
            },
            TtsCommand::Quit => {
                self.pending = VecDeque::new();
                assert(views(self.pending@) =~= Seq::<Seq<char>>::empty());
                EdgeStep {
                    stop_player: true,
                    overlay: Some(OverlayState::Idle),
                    synthesize: None,
                    exit: true,
                }
            },
        }
    }

    /// Records how the first chunk of a read went (`played`: it was
    /// synthesised, decoded and queued) and returns the status to show:
    /// reading when it plays, idle when it failed.
    pub fn on_first_chunk(&mut self, played: bool) -> (st: OverlayState)
        ensures
            (final(self).read_state(), st) == edge_first_chunk(old(self).read_state(), played),
            final(self).playing == (played || old(self).playing),
            st == (if played { OverlayState::Reading } else { OverlayState::Idle }),
            final(self).pending == old(self).pending,
            final(self).voice == old(self).voice,
            final(self).speed == old(self).speed,
    {
        if played {
            self.playing = true;
            OverlayState::Reading
        } else {
            OverlayState::Idle
        }
    }

    /// Keeps the player fed: while a read plays and at most one chunk is
    /// queued in the player, hands out the next pending chunk.
    pub fn next_chunk(&mut self, queued: usize) -> (c: Option<String>)
        ensures
            (final(self).read_state(), opt_view(c)) == edge_next_chunk(old(self).read_state(), queued as nat),
            hands_out(old(self).playing, old(self).pending@.len(), queued as nat) ==> (c is Some
                && c->0 == old(self).pending@[0] && final(self).pending@
                == old(self).pending@.drop_first()),
            !hands_out(old(self).playing, old(self).pending@.len(), queued as nat) ==> (c is None
                && final(self).pending == old(self).pending),
            final(self).playing == old(self).playing,
            final(self).voice == old(self).voice,
            final(self).speed == old(self).speed,
    {
        if self.playing && self.pending.len() > 0 && queued < 2 {
            let c = self.pending.pop_front();
            assert(self.pending@ =~= old(self).pending@.drop_first());
            assert(views(self.pending@) =~= views(old(self).pending@).drop_first());
            c
        } else {
            None
        }
    }

    /// Notices the natural end of a read: once it plays, nothing is pending
    /// and the player has run dry, the read is over and the status returns
    /// to idle (the result is `true` then).
    pub fn finish_if_done(&mut self, player_empty: bool) -> (done: bool)
        ensures
            (final(self).read_state(), done) == edge_finish(old(self).read_state(), player_empty),
            done == read_over(old(self).playing, old(self).pending@.len(), player_empty),
            final(self).playing == (old(self).playing && !done),
            final(self).pending == old(self).pending,
            final(self).voice == old(self).voice,
            final(self).speed == old(self).speed,
    {
        if self.playing && self.pending.len() == 0 && player_empty {
            self.playing = false;
            true
        } else {
            false
        }
    }

    /// The synthesis request for the current voice and speed.
    pub fn params(&self) -> (p: SpeechParams)
        ensures
            p.voice_name@ == self.voice@,
            p.rate == rate_percent_spec(self.speed as int),
            p.audio_format@ == audio_format_spec(),
            p.pitch == 0 && p.volume == 0,
    {
        speech_params(&self.voice, self.speed)
    }
}

} // verus!
