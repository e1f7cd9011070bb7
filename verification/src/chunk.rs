//! Whitespace-bounded text chunking.
//!
//! A text is split into words at whitespace, and the words are greedily
//! packed into chunks of at most a configured number of characters, always
//! rejoined with a single space. A single word longer than the limit is
//! never split: it forms a chunk of its own. A text with no words at all
//! yields one chunk holding the text unchanged, so chunking never returns
//! an empty sequence.
use vstd::prelude::*;
use vstd::string::StrSliceExecFns;
use vstd::string::StringExecFns;

verus! {

/// The characters the splitter treats as whitespace: those with the
/// Unicode `White_Space` property.
pub open spec fn is_space(c: char) -> bool {
    ||| (0x09 <= c as u32 && c as u32 <= 0x0D)
    ||| c as u32 == 0x20
    ||| c as u32 == 0x85
    ||| c as u32 == 0xA0
    ||| c as u32 == 0x1680
    ||| (0x2000 <= c as u32 && c as u32 <= 0x200A)
    ||| c as u32 == 0x2028
    ||| c as u32 == 0x2029
    ||| c as u32 == 0x202F
    ||| c as u32 == 0x205F
    ||| c as u32 == 0x3000
}

/// Decides whether a character counts as whitespace for the splitter.
pub fn is_space_char(c: char) -> (r: bool)
    ensures
        r == is_space(c),
{
    let u = c as u32;
    (0x09 <= u && u <= 0x0D) || u == 0x20 || u == 0x85 || u == 0xA0 || u == 0x1680
        || (0x2000 <= u && u <= 0x200A) || u == 0x2028 || u == 0x2029 || u == 0x202F
        || u == 0x205F || u == 0x3000
}

/// The words of `s` from position `i` on, `cur` being the partial word read
/// so far: maximal runs of non-whitespace characters, in order.
pub open spec fn words_from(s: Seq<char>, i: int, cur: Seq<char>) -> Seq<Seq<char>>
    decreases s.len() - i,
{
    if i < 0 || i >= s.len() {
        if cur.len() == 0 {
            Seq::empty()
        } else {
            seq![cur]
        }
    } else if is_space(s[i]) {
        if cur.len() == 0 {
            words_from(s, i + 1, Seq::empty())
        } else {
            seq![cur] + words_from(s, i + 1, Seq::empty())
        }
    } else {
        words_from(s, i + 1, cur.push(s[i]))
    }
}

/// The whitespace-separated words of `s`, in order.
pub open spec fn words_of(s: Seq<char>) -> Seq<Seq<char>> {
    words_from(s, 0, Seq::empty())
}

/// The parts joined by a single space between consecutive parts.
pub open spec fn space_join(parts: Seq<Seq<char>>) -> Seq<char>
    decreases parts.len(),
{
    if parts.len() == 0 {
        Seq::empty()
    } else if parts.len() == 1 {
        parts[0]
    } else {
        parts[0] + seq![' '] + space_join(parts.drop_first())
    }
}

/// Greedy packing of the words `ws` from position `i` on into chunks of at
/// most `max` characters, `cur` being the chunk being filled: a word is
/// appended after a single space unless that would push the chunk past
/// `max`, in which case the chunk is closed and the word starts a new one.
pub open spec fn chunks_from(ws: Seq<Seq<char>>, i: int, cur: Seq<char>, max: int) -> Seq<
    Seq<char>,
>
    decreases ws.len() - i,
{
    if i < 0 || i >= ws.len() {
        if cur.len() == 0 {
            Seq::empty()
        } else {
            seq![cur]
        }
    } else {
        let w = ws[i];
        if cur.len() == 0 {
            chunks_from(ws, i + 1, w, max)
        } else if cur.len() + w.len() + 1 > max {
            seq![cur] + chunks_from(ws, i + 1, w, max)
        } else {
            chunks_from(ws, i + 1, cur + seq![' '] + w, max)
        }
    }
}

/// The chunks of `s` under limit `max`: the greedy packing of its words,
/// or the single chunk `s` itself when no word was found.
pub open spec fn chunk_seq(s: Seq<char>, max: int) -> Seq<Seq<char>> {
    let cs = chunks_from(words_of(s), 0, Seq::empty(), max);
    if cs.len() == 0 {
        seq![s]
    } else {
        cs
    }
}

/// A word as the splitter produces it: at least one character, none of
/// them whitespace.
pub open spec fn spacefree(w: Seq<char>) -> bool {
    forall|x: int| 0 <= x < w.len() ==> !is_space(#[trigger] w[x])
}

/// Every element is a well-formed word: non-empty and free of whitespace.
pub open spec fn good_words(ws: Seq<Seq<char>>) -> bool {
    forall|j: int| 0 <= j < ws.len() ==> (#[trigger] ws[j]).len() > 0 && spacefree(ws[j])
}

proof fn lemma_words_from_shift(s: Seq<char>, t: Seq<char>, j: int, cur: Seq<char>)
    requires
        0 <= j <= t.len(),
    ensures
        words_from(s + t, s.len() + j, cur) == words_from(t, j, cur),
    decreases t.len() - j,
{
    if j >= t.len() {
        assert(words_from(s + t, s.len() + j, cur) == words_from(t, j, cur));
    } else {
        assert((s + t)[s.len() + j] == t[j]);
        lemma_words_from_shift(s, t, j + 1, cur);
        if is_space(t[j]) {
            lemma_words_from_shift(s, t, j + 1, Seq::empty());
        } else {
            lemma_words_from_shift(s, t, j + 1, cur.push(t[j]));
        }
    }
}

proof fn lemma_words_from_word(w: Seq<char>, t: Seq<char>, j: int, cur: Seq<char>)
    requires
        0 <= j <= w.len(),
        spacefree(w),
    ensures
        words_from(w + t, j, cur) == words_from(w + t, w.len() as int, cur + w.skip(j)),
    decreases w.len() - j,
{
    if j == w.len() {
        assert(cur + w.skip(j) =~= cur);
    } else {
        assert((w + t)[j] == w[j]);
        assert(!is_space(w[j]));
        lemma_words_from_word(w, t, j + 1, cur.push(w[j]));
        assert(cur.push(w[j]) + w.skip(j + 1) =~= cur + w.skip(j));
    }
}

proof fn lemma_words_from_good(s: Seq<char>, i: int, cur: Seq<char>)
    requires
        spacefree(cur),
    ensures
        good_words(words_from(s, i, cur)),
    decreases s.len() - i,
{
    if i < 0 || i >= s.len() {
    } else if is_space(s[i]) {
        lemma_words_from_good(s, i + 1, Seq::empty());
        if cur.len() > 0 {
            assert(good_words(seq![cur] + words_from(s, i + 1, Seq::empty())));
        }
    } else {
        assert(spacefree(cur.push(s[i]))) by {
            assert(forall|x: int|
                0 <= x < cur.len() ==> #[trigger] cur.push(s[i])[x] == cur[x]);
        }
        lemma_words_from_good(s, i + 1, cur.push(s[i]));
    }
}

/// The words of any text are non-empty and free of whitespace.
pub proof fn lemma_words_good(s: Seq<char>)
    ensures
        good_words(words_of(s)),
{
    lemma_words_from_good(s, 0, Seq::empty());
}

proof fn lemma_space_join_concat(a: Seq<Seq<char>>, b: Seq<Seq<char>>)
    requires
        a.len() > 0,
        b.len() > 0,
    ensures
        space_join(a + b) == space_join(a) + seq![' '] + space_join(b),
    decreases a.len(),
{
    if a.len() == 1 {
        assert((a + b)[0] == a[0]);
        assert((a + b).drop_first() =~= b);
        assert(space_join(a + b) == a[0] + seq![' '] + space_join(b));
        assert(space_join(a) == a[0]);
    } else {
        assert((a + b)[0] == a[0]);
        assert((a + b).drop_first() =~= a.drop_first() + b);
        lemma_space_join_concat(a.drop_first(), b);
        assert(space_join(a + b) == a[0] + seq![' '] + (space_join(a.drop_first()) + seq![' ']
            + space_join(b)));
        assert(a[0] + seq![' '] + (space_join(a.drop_first()) + seq![' '] + space_join(b)) =~= (
        a[0] + seq![' '] + space_join(a.drop_first())) + seq![' '] + space_join(b));
    }
}

proof fn lemma_space_join_len(parts: Seq<Seq<char>>)
    requires
        parts.len() > 0,
    ensures
        space_join(parts).len() >= parts[0].len(),
{
    if parts.len() == 1 {
    } else {
        assert(space_join(parts) == parts[0] + seq![' '] + space_join(parts.drop_first()));
    }
}

proof fn lemma_words_of_space_join(ws: Seq<Seq<char>>)
    requires
        good_words(ws),
    ensures
        words_of(space_join(ws)) == ws,
    decreases ws.len(),
{
    if ws.len() == 0 {
        assert(words_of(space_join(ws)) =~= ws);
    } else if ws.len() == 1 {
        let w = ws[0];
        assert(w + Seq::<char>::empty() =~= w);
        lemma_words_from_word(w, Seq::empty(), 0, Seq::empty());
        assert(Seq::<char>::empty() + w.skip(0) =~= w);
        assert(words_of(w) == words_from(w, w.len() as int, w));
        assert(words_from(w, w.len() as int, w) == seq![w]);
        assert(seq![w] =~= ws);
    } else {
        let w = ws[0];
        let rest = space_join(ws.drop_first());
        let s = space_join(ws);
        assert(s == w + seq![' '] + rest);
        assert(s =~= w + (seq![' '] + rest));
        lemma_words_from_word(w, seq![' '] + rest, 0, Seq::empty());
        assert(Seq::<char>::empty() + w.skip(0) =~= w);
        assert(words_of(s) == words_from(s, w.len() as int, w));
        assert(s[w.len() as int] == ' ');
        assert(is_space(' '));
        assert(words_from(s, w.len() as int, w) == seq![w] + words_from(
            s,
            w.len() as int + 1,
            Seq::empty(),
        ));
        assert(s =~= (w + seq![' ']) + rest);
        lemma_words_from_shift(w + seq![' '], rest, 0, Seq::empty());
        assert(words_from(s, w.len() as int + 1, Seq::empty()) == words_of(rest));
        lemma_words_of_space_join(ws.drop_first());
        assert(seq![w] + ws.drop_first() =~= ws);
    }
}

proof fn lemma_chunks_from_join(ws: Seq<Seq<char>>, i: int, acc: Seq<Seq<char>>, max: int)
    requires
        0 <= i <= ws.len(),
        good_words(ws),
        good_words(acc),
    ensures
        space_join(chunks_from(ws, i, space_join(acc), max)) == space_join(acc + ws.skip(i)),
        chunks_from(ws, i, space_join(acc), max).len() == 0 <==> acc.len() == 0 && i == ws.len(),
    decreases ws.len() - i,
{
    let cur = space_join(acc);
    if acc.len() > 0 {
        lemma_space_join_len(acc);
        assert(cur.len() > 0);
    }
    if i >= ws.len() {
        assert(acc + ws.skip(i) =~= acc);
        if acc.len() == 0 {
            assert(chunks_from(ws, i, cur, max) =~= Seq::<Seq<char>>::empty());
        } else {
            assert(chunks_from(ws, i, cur, max) == seq![cur]);
            assert(space_join(seq![cur]) == cur);
        }
    } else {
        let w = ws[i];
        assert(w.len() > 0 && spacefree(w));
        assert(good_words(seq![w]));
        assert(space_join(seq![w]) == w);
        if cur.len() == 0 {
            assert(acc.len() == 0);
            lemma_chunks_from_join(ws, i + 1, seq![w], max);
            assert(seq![w] + ws.skip(i + 1) =~= ws.skip(i));
            assert(acc + ws.skip(i) =~= ws.skip(i));
        } else if cur.len() + w.len() + 1 > max {
            lemma_chunks_from_join(ws, i + 1, seq![w], max);
            let rest = chunks_from(ws, i + 1, w, max);
            assert(rest.len() > 0);
            lemma_space_join_concat(seq![cur], rest);
            assert(space_join(seq![cur] + rest) == cur + seq![' '] + space_join(rest));
            assert(seq![w] + ws.skip(i + 1) =~= ws.skip(i));
            lemma_space_join_concat(acc, ws.skip(i));
            assert(acc + ws.skip(i) =~= acc + ws.skip(i));
        } else {
            let acc2 = acc.push(w);
            assert(acc =~= acc);
            assert(acc2 =~= acc + seq![w]);
            lemma_space_join_concat(acc, seq![w]);
            assert(space_join(acc2) == cur + seq![' '] + w);
            assert(good_words(acc2)) by {
                assert(forall|j: int| 0 <= j < acc.len() ==> #[trigger] acc2[j] == acc[j]);
            }
            lemma_chunks_from_join(ws, i + 1, acc2, max);
            assert(acc2 + ws.skip(i + 1) =~= acc + ws.skip(i));
        }
    }
}

proof fn lemma_chunks_from_bounded(ws: Seq<Seq<char>>, i: int, acc: Seq<Seq<char>>, max: int)
    requires
        0 <= i <= ws.len(),
        good_words(ws),
        good_words(acc),
        space_join(acc).len() <= max || acc.len() == 1,
    ensures
        forall|j: int|
            0 <= j < chunks_from(ws, i, space_join(acc), max).len() ==> ((#[trigger] chunks_from(
                ws,
                i,
                space_join(acc),
                max,
            )[j]).len() <= max || words_of(chunks_from(ws, i, space_join(acc), max)[j]).len()
                == 1),
    decreases ws.len() - i,
{
    let cur = space_join(acc);
    if acc.len() > 0 {
        lemma_space_join_len(acc);
    }
    lemma_words_of_space_join(acc);
    if i >= ws.len() {
        if cur.len() > 0 {
            assert(chunks_from(ws, i, cur, max) == seq![cur]);
        }
    } else {
        let w = ws[i];
        assert(good_words(seq![w]));
        assert(space_join(seq![w]) == w);
        if cur.len() == 0 {
            lemma_chunks_from_bounded(ws, i + 1, seq![w], max);
            assert(chunks_from(ws, i, cur, max) == chunks_from(ws, i + 1, w, max));
        } else if cur.len() + w.len() + 1 > max {
            lemma_chunks_from_bounded(ws, i + 1, seq![w], max);
            let rest = chunks_from(ws, i + 1, w, max);
            assert(chunks_from(ws, i, cur, max) == seq![cur] + rest);
            assert forall|j: int| 0 <= j < (seq![cur] + rest).len() implies ((#[trigger] (seq![cur]
                + rest)[j]).len() <= max || words_of((seq![cur] + rest)[j]).len() == 1) by {
                if j == 0 {
                    assert((seq![cur] + rest)[0] == cur);
                    assert(words_of(cur) == acc);
                } else {
                    assert((seq![cur] + rest)[j] == rest[j - 1]);
                }
            }
        } else {
            let acc2 = acc.push(w);
            assert(acc2 =~= acc + seq![w]);
            lemma_space_join_concat(acc, seq![w]);
            assert(good_words(acc2)) by {
                assert(forall|j: int| 0 <= j < acc.len() ==> #[trigger] acc2[j] == acc[j]);
            }
            assert(space_join(acc2).len() <= max);
            lemma_chunks_from_bounded(ws, i + 1, acc2, max);
            assert(chunks_from(ws, i, cur, max) == chunks_from(ws, i + 1, cur + seq![' '] + w, max));
            assert(space_join(acc2) == cur + seq![' '] + w);
        }
    }
}

proof fn lemma_words_from_join_len(s: Seq<char>, i: int, cur: Seq<char>)
    requires
        0 <= i <= s.len(),
    ensures
        space_join(words_from(s, i, cur)).len() <= cur.len() + s.len() - i,
    decreases s.len() - i,
{
    if i >= s.len() {
    } else if is_space(s[i]) {
        lemma_words_from_join_len(s, i + 1, Seq::empty());
        if cur.len() > 0 {
            let rest = words_from(s, i + 1, Seq::empty());
            if rest.len() == 0 {
                assert(seq![cur] + rest =~= seq![cur]);
                assert(space_join(seq![cur]) == cur);
            } else {
                lemma_space_join_concat(seq![cur], rest);
                assert(space_join(seq![cur] + rest) == cur + seq![' '] + space_join(rest));
            }
        }
    } else {
        lemma_words_from_join_len(s, i + 1, cur.push(s[i]));
    }
}

/// Joining the words of a text with single spaces never yields more
/// characters than the text itself held.
pub proof fn lemma_words_join_len(s: Seq<char>)
    ensures
        space_join(words_of(s)).len() <= s.len(),
{
    lemma_words_from_join_len(s, 0, Seq::empty());
}

/// Chunking yields at least one chunk, whatever the text.
pub proof fn lemma_chunking_nonempty(s: Seq<char>, max: int)
    ensures
        chunk_seq(s, max).len() >= 1,
{
}

/// Joining the chunks of a text with single spaces joins exactly the words
/// of the text, or gives the text back unchanged when it held no word.
pub proof fn lemma_chunks_join(s: Seq<char>, max: int)
    ensures
        space_join(chunk_seq(s, max)) == if words_of(s).len() == 0 {
            s
        } else {
            space_join(words_of(s))
        },
        space_join(chunk_seq(s, max)).len() <= s.len(),
{
    lemma_words_good(s);
    let ws = words_of(s);
    lemma_chunks_from_join(ws, 0, Seq::empty(), max);
    assert(space_join(Seq::<Seq<char>>::empty()) =~= Seq::<char>::empty());
    assert(Seq::<Seq<char>>::empty() + ws.skip(0) =~= ws);
    let cs = chunks_from(ws, 0, Seq::empty(), max);
    if ws.len() == 0 {
        assert(cs.len() == 0);
        assert(chunk_seq(s, max) == seq![s]);
        assert(space_join(seq![s]) == s);
    } else {
        assert(cs.len() > 0);
        assert(space_join(cs) == space_join(ws));
    }
    lemma_words_join_len(s);
}

/// Splitting the space-joined chunks back at whitespace recovers exactly
/// the words of the original text: chunking loses no word, invents none,
/// and keeps their order.
pub proof fn lemma_chunks_reconstruct(s: Seq<char>, max: int)
    requires
        max >= 1,
    ensures
        words_of(space_join(chunk_seq(s, max))) == words_of(s),
{
    lemma_chunks_join(s, max);
    if words_of(s).len() == 0 {
    } else {
        lemma_words_good(s);
        lemma_words_of_space_join(words_of(s));
    }
}

/// No chunk outgrows the limit, except one that holds a single word which
/// is itself longer than the limit. Degenerate texts without any word are
/// ruled out by the precondition: there the single chunk is the text
/// itself, whatever its length.
pub proof fn lemma_chunk_size_bounded(s: Seq<char>, max: int)
    requires
        max >= 1,
        words_of(s).len() > 0 || s.len() <= max,
    ensures
        forall|j: int|
            0 <= j < chunk_seq(s, max).len() ==> ((#[trigger] chunk_seq(s, max)[j]).len() <= max
                || words_of(chunk_seq(s, max)[j]).len() == 1),
{
    lemma_words_good(s);
    let ws = words_of(s);
    lemma_chunks_from_join(ws, 0, Seq::empty(), max);
    assert(space_join(Seq::<Seq<char>>::empty()) =~= Seq::<char>::empty());
    let cs = chunks_from(ws, 0, Seq::empty(), max);
    if ws.len() == 0 {
        assert(cs.len() == 0);
        assert(chunk_seq(s, max) == seq![s]);
    } else {
        assert(cs.len() > 0);
        lemma_chunks_from_bounded(ws, 0, Seq::empty(), max);
    }
}

/// Extending a space-joined sequence by one more part appends one space
/// and the part, except to an empty sequence, which it starts outright.
pub proof fn lemma_space_join_snoc(parts: Seq<Seq<char>>, x: Seq<char>)
    ensures
        space_join(parts.push(x)) == if parts.len() == 0 {
            x
        } else {
            space_join(parts) + seq![' '] + x
        },
{
    if parts.len() == 0 {
        assert(parts.push(x) =~= seq![x]);
        assert(space_join(seq![x]) == x);
    } else {
        assert(parts.push(x) =~= parts + seq![x]);
        lemma_space_join_concat(parts, seq![x]);
        assert(space_join(seq![x]) == x);
    }
}

/// The character offset at which chunk `i` starts when the chunks are
/// rejoined with single spaces.
pub open spec fn join_start(cs: Seq<Seq<char>>, i: int) -> int {
    if i <= 0 {
        0
    } else {
        space_join(cs.take(i)).len() as int + 1
    }
}

/// How the start offsets of consecutive chunks relate: each chunk ends
/// where its text ends, and the next chunk starts one join space later.
pub proof fn lemma_join_start_step(cs: Seq<Seq<char>>, i: int)
    requires
        0 <= i < cs.len(),
    ensures
        join_start(cs, i + 1) == join_start(cs, i) + cs[i].len() + 1,
        join_start(cs, i) + cs[i].len() <= space_join(cs).len(),
        i + 1 < cs.len() ==> join_start(cs, i + 1) <= space_join(cs).len(),
{
    if i == 0 {
        assert(cs.take(1) =~= seq![cs[0]]);
        assert(space_join(seq![cs[0]]) == cs[0]);
    } else {
        assert(cs.take(i + 1) =~= cs.take(i) + seq![cs[i]]);
        lemma_space_join_concat(cs.take(i), seq![cs[i]]);
        assert(space_join(seq![cs[i]]) == cs[i]);
    }
    if i + 1 < cs.len() {
        assert(cs =~= cs.take(i + 1) + cs.skip(i + 1));
        lemma_space_join_concat(cs.take(i + 1), cs.skip(i + 1));
    } else {
        assert(cs.take(i + 1) =~= cs);
    }
}

/// Splits a text into its whitespace-separated words.
fn split_words(text: &str) -> (words: Vec<String>)
    ensures
        words.deep_view() == words_of(text@),
{
    let n = text.unicode_len();
    let mut words: Vec<String> = Vec::new();
    let mut cur = String::new();
    let mut i: usize = 0;
    while i < n
        invariant
            n == text@.len(),
            i <= n,
            words.deep_view() + words_from(text@, i as int, cur@) == words_of(text@),
        decreases n - i,
    {
        let ghost prev_words = words.deep_view();
        let ghost prev_cur = cur@;
        let c = text.get_char(i);
        if is_space_char(c) {
            if !cur.as_str().is_empty() {
                words.push(cur);
                cur = String::new();
                proof {
                    assert(words_from(text@, i as int, prev_cur) == seq![prev_cur] + words_from(
                        text@,
                        i + 1,
                        Seq::empty(),
                    ));
                    assert(words.deep_view() =~= prev_words.push(prev_cur));
                    assert(prev_words.push(prev_cur) + words_from(text@, i + 1, Seq::empty())
                        =~= prev_words + (seq![prev_cur] + words_from(
                        text@,
                        i + 1,
                        Seq::empty(),
                    )));
                }
            } else {
                proof {
                    assert(words_from(text@, i as int, prev_cur) == words_from(
                        text@,
                        i + 1,
                        Seq::empty(),
                    ));
                    assert(prev_cur =~= Seq::<char>::empty());
                }
            }
        } else {
            let piece = text.substring_char(i, i + 1);
            cur.append(piece);
            proof {
                assert(cur@ =~= prev_cur.push(text@[i as int]));
                assert(words_from(text@, i as int, prev_cur) == words_from(
                    text@,
                    i + 1,
                    prev_cur.push(text@[i as int]),
                ));
            }
        }
        i = i + 1;
    }
    if !cur.as_str().is_empty() {
        let ghost prev_words = words.deep_view();
        let ghost prev_cur = cur@;
        words.push(cur);
        proof {
            assert(words.deep_view() =~= prev_words.push(prev_cur));
            assert(prev_words.push(prev_cur) =~= prev_words + seq![prev_cur]);
        }
    }
    words
}

/// Splits a text into chunks of at most `max_size` characters, breaking
/// only at whitespace; a lone word longer than the limit stands unsplit in
/// its own chunk, and a text with no words yields one chunk holding the
/// text unchanged.
pub fn chunk_text(text: &str, max_size: usize) -> (chunks: Vec<String>)
    requires
        max_size > 0,
    ensures
        chunks.deep_view() == chunk_seq(text@, max_size as int),
{
    let words = split_words(text);
    let ghost ws = words.deep_view();
    let mut chunks: Vec<String> = Vec::new();
    let mut cur = String::new();
    let mut k: usize = 0;
    while k < words.len()
        invariant
            max_size > 0,
            k <= words.len(),
            words.deep_view() == ws,
            chunks.deep_view() + chunks_from(ws, k as int, cur@, max_size as int)
                == chunks_from(ws, 0, Seq::empty(), max_size as int),
        decreases words.len() - k,
    {
        let ghost prev_chunks = chunks.deep_view();
        let ghost prev_cur = cur@;
        let w_len = words[k].as_str().unicode_len();
        let cur_len = cur.as_str().unicode_len();
        if cur_len == 0 {
            cur = words[k].clone();
        } else if cur_len >= max_size || w_len >= max_size - cur_len {
            chunks.push(cur);
            cur = words[k].clone();
            proof {
                assert(chunks.deep_view() =~= prev_chunks.push(prev_cur));
                assert(prev_chunks.push(prev_cur) + chunks_from(
                    ws,
                    k + 1,
                    cur@,
                    max_size as int,
                ) =~= prev_chunks + (seq![prev_cur] + chunks_from(
                    ws,
                    k + 1,
                    cur@,
                    max_size as int,
                )));
            }
        } else {
            cur.append(" ");
            cur.append(words[k].as_str());
            proof {
                reveal_strlit(" ");
                assert(" "@ =~= seq![' ']);
                assert(cur@ =~= prev_cur + seq![' '] + ws[k as int]);
            }
        }
        k = k + 1;
    }
    if !cur.as_str().is_empty() {
        let ghost prev_chunks = chunks.deep_view();
        let ghost prev_cur = cur@;
        chunks.push(cur);
        proof {
            assert(chunks.deep_view() =~= prev_chunks.push(prev_cur));
            assert(prev_chunks.push(prev_cur) =~= prev_chunks + seq![prev_cur]);
        }
    }
    if chunks.len() == 0 {
        chunks.push(String::from_str(text));
        proof {
            assert(chunks.deep_view() =~= seq![text@]);
        }
    }
    chunks
}

} // verus!
