//! Framing of a catalog text: cutting it into the chunks that hold one
//! record each.
//!
//! A chunk begins with a line that holds only `{` and ends with the next
//! line that holds only `}`, trailing white space aside. Lines outside of
//! chunks are dropped. A `{` line inside a chunk starts the chunk anew.

use vstd::prelude::*;
use crate::grammar::LSys;
use crate::text::{chars_of, string_from_chars};

verus! {

/// Whether `c` is white space: a character with the Unicode property
/// `White_Space`.
pub open spec fn is_whitespace(c: char) -> bool {
    ||| '\u{9}' <= c <= '\u{d}'
    ||| c == ' '
    ||| c == '\u{85}'
    ||| c == '\u{a0}'
    ||| c == '\u{1680}'
    ||| '\u{2000}' <= c <= '\u{200a}'
    ||| c == '\u{2028}'
    ||| c == '\u{2029}'
    ||| c == '\u{202f}'
    ||| c == '\u{205f}'
    ||| c == '\u{3000}'
}

/// `s` without the white space at its end.
pub open spec fn trim_end(s: Seq<char>) -> Seq<char>
    decreases s.len(),
{
    if s.len() > 0 && is_whitespace(s.last()) {
        trim_end(s.drop_last())
    } else {
        s
    }
}

/// The index of the first line feed of `s`, or the length of `s` if it has
/// none.
pub open spec fn line_end(s: Seq<char>) -> int
    decreases s.len(),
{
    if s.len() == 0 || s.first() == '\n' {
        0
    } else {
        1 + line_end(s.drop_first())
    }
}

/// `s` without the carriage return at its end, if it has one.
pub open spec fn strip_cr(s: Seq<char>) -> Seq<char> {
    if s.len() > 0 && s.last() == '\r' {
        s.drop_last()
    } else {
        s
    }
}

/// The lines of `s`.
///
/// A line ends with a line feed, or with a carriage return and a line feed;
/// neither belongs to the line. What follows the last line feed is a line of
/// its own unless it is empty, and keeps a carriage return at its end.
pub open spec fn lines(s: Seq<char>) -> Seq<Seq<char>>
    decreases s.len(),
{
    if s.len() == 0 {
        Seq::empty()
    } else if 0 <= line_end(s) < s.len() {
        seq![strip_cr(s.take(line_end(s)))] + lines(s.skip(line_end(s) + 1))
    } else {
        seq![s]
    }
}

/// Where the cutting stands between two lines.
pub struct ChunkScan {
    /// the chunks that are complete
    pub chunks: Seq<Seq<char>>,
    /// whether a chunk is open
    pub inchunk: bool,
    /// the lines of the open chunk, each with a line feed behind it
    pub chunk: Seq<char>,
}

/// What one line does to the cutting.
pub open spec fn scan_line(st: ChunkScan, line: Seq<char>) -> ChunkScan {
    if trim_end(line) == seq!['{'] {
        ChunkScan { inchunk: true, chunk: line.push('\n'), ..st }
    } else if trim_end(line) == seq!['}'] && st.inchunk {
        ChunkScan {
            chunks: st.chunks.push(st.chunk + line.push('\n')),
            inchunk: false,
            chunk: st.chunk + line.push('\n'),
        }
    } else if st.inchunk {
        ChunkScan { chunk: st.chunk + line.push('\n'), ..st }
    } else {
        st
    }
}

/// The cutting after the lines `ls`, read in order.
pub open spec fn scan_lines(ls: Seq<Seq<char>>) -> ChunkScan
    decreases ls.len(),
{
    if ls.len() == 0 {
        ChunkScan { chunks: Seq::empty(), inchunk: false, chunk: Seq::empty() }
    } else {
        scan_line(scan_lines(ls.drop_last()), ls.last())
    }
}

/// The chunks of the text `s`.
pub open spec fn json_chunks(s: Seq<char>) -> Seq<Seq<char>> {
    scan_lines(lines(s)).chunks
}

/// The texts of `v`.
pub open spec fn texts(v: Seq<String>) -> Seq<Seq<char>> {
    v.map_values(|s: String| s@)
}

/// Tests whether `c` is white space.
pub fn is_whitespace_char(c: char) -> (b: bool)
    ensures
        b == is_whitespace(c),
{
    ('\u{9}' <= c && c <= '\u{d}') || c == ' ' || c == '\u{85}' || c == '\u{a0}' || c == '\u{1680}'
        || ('\u{2000}' <= c && c <= '\u{200a}') || c == '\u{2028}' || c == '\u{2029}' || c
        == '\u{202f}' || c == '\u{205f}' || c == '\u{3000}'
}

proof fn lemma_line_end_bounds(s: Seq<char>)
    ensures
        0 <= line_end(s) <= s.len(),
        line_end(s) < s.len() ==> s[line_end(s)] == '\n',
        forall|j: int| 0 <= j < line_end(s) ==> s[j] != '\n',
    decreases s.len(),
{
    if s.len() == 0 || s.first() == '\n' {
    } else {
        lemma_line_end_bounds(s.drop_first());
        assert forall|j: int| 0 <= j < line_end(s) implies s[j] != '\n' by {
            if j > 0 {
                assert(s[j] == s.drop_first()[j - 1]);
            }
        }
    }
}

/// The first line feed of `s` is at `e` if there is one there and none
/// before; `s` has none if `e` is its length and there is none before.
proof fn lemma_line_end_is(s: Seq<char>, e: int)
    requires
        0 <= e <= s.len(),
        forall|j: int| 0 <= j < e ==> s[j] != '\n',
        e < s.len() ==> s[e] == '\n',
    ensures
        line_end(s) == e,
{
    lemma_line_end_bounds(s);
    if line_end(s) < e {
    } else if line_end(s) > e {
    }
}

/// Behind a line feed the lines of a text begin afresh.
proof fn lemma_lines_append(a: Seq<char>, b: Seq<char>)
    requires
        a.len() == 0 || a.last() == '\n',
    ensures
        lines(a + b) == lines(a) + lines(b),
    decreases a.len(),
{
    if a.len() == 0 {
        assert(a + b =~= b);
        assert(lines(a) + lines(b) =~= lines(b));
    } else {
        lemma_line_end_bounds(a);
        let e = line_end(a);
        assert(e < a.len()) by {
            if e >= a.len() {
                assert(a[a.len() - 1] != '\n');
            }
        }
        assert forall|j: int| 0 <= j < e implies (a + b)[j] != '\n' by {
            assert((a + b)[j] == a[j]);
        }
        assert((a + b)[e] == a[e]);
        lemma_line_end_is(a + b, e);
        let rest = a.skip(e + 1);
        assert(rest.len() == 0 || rest.last() == '\n') by {
            if rest.len() > 0 {
                assert(rest.last() == a.last());
            }
        }
        lemma_lines_append(rest, b);
        assert((a + b).skip(e + 1) =~= rest + b);
        assert((a + b).take(e) =~= a.take(e));
        assert(lines(a + b) =~= lines(a) + lines(b));
    }
}

/// Reading one more line: where the line at `pos` of `text` ends and what
/// it holds.
///
/// `end` is the index of its line feed, or the length of `text` if it has
/// none; `stop` leaves out the carriage return before a line feed.
spec fn is_line_at(text: Seq<char>, pos: int, end: int, stop: int) -> bool {
    &&& 0 <= pos <= stop <= end <= text.len()
    &&& pos < text.len()
    &&& pos == 0 || text[pos - 1] == '\n'
    &&& forall|j: int| pos <= j < end ==> text[j] != '\n'
    &&& end < text.len() ==> text[end] == '\n'
    &&& stop == if end < text.len() && end > pos && text[end - 1] == '\r' {
        end - 1
    } else {
        end
    }
}

proof fn lemma_next_line(text: Seq<char>, pos: int, end: int, stop: int)
    requires
        is_line_at(text, pos, end, stop),
    ensures
        lines(text.take(if end < text.len() { end + 1 } else { end })) == lines(
            text.take(pos),
        ).push(text.subrange(pos, stop)),
{
    let next = if end < text.len() {
        end + 1
    } else {
        end
    };
    let line = text.subrange(pos, stop);
    let done = text.take(pos);
    let piece = text.subrange(pos, next);
    assert(text.take(next) =~= done + piece);
    lemma_lines_append(done, piece);
    assert forall|j: int| 0 <= j < end - pos implies piece[j] != '\n' by {
        assert(piece[j] == text[pos + j]);
    }
    lemma_line_end_is(piece, end - pos);
    if end < text.len() {
        assert(piece.skip(end - pos + 1) =~= Seq::<char>::empty());
        assert(piece.take(end - pos) =~= text.subrange(pos, end));
        assert(strip_cr(text.subrange(pos, end)) =~= line);
        assert(lines(piece.skip(end - pos + 1)) =~= Seq::<Seq<char>>::empty());
        assert(lines(piece) =~= seq![line]);
    } else {
        assert(piece =~= line);
        assert(lines(piece) =~= seq![line]);
    }
    assert(lines(done) + seq![line] =~= lines(done).push(line));
}

/// The index of the first line feed of `text` at or behind `pos`, or the
/// length of `text`.
fn find_line_end(text: &Vec<char>, pos: usize) -> (end: usize)
    requires
        pos <= text.len(),
    ensures
        pos <= end <= text.len(),
        forall|j: int| pos <= j < end ==> text[j] != '\n',
        end < text.len() ==> text[end as int] == '\n',
{
    let mut end: usize = pos;
    while end < text.len() && text[end] != '\n'
        invariant
            pos <= end <= text.len(),
            forall|j: int| pos <= j < end ==> text[j] != '\n',
        decreases text.len() - end,
    {
        end += 1;
    }
    end
}

/// Where the part of `text` from `pos` to `stop` ends once the white space
/// at its end is left out.
fn find_trimmed_end(text: &Vec<char>, pos: usize, stop: usize) -> (trimmed: usize)
    requires
        pos <= stop <= text.len(),
    ensures
        pos <= trimmed <= stop,
        text@.subrange(pos as int, trimmed as int) == trim_end(
            text@.subrange(pos as int, stop as int),
        ),
{
    let mut trimmed: usize = stop;
    while trimmed > pos && is_whitespace_char(text[trimmed - 1])
        invariant
            pos <= trimmed <= stop <= text.len(),
            trim_end(text@.subrange(pos as int, stop as int)) == trim_end(
                text@.subrange(pos as int, trimmed as int),
            ),
        decreases trimmed,
    {
        assert(text@.subrange(pos as int, trimmed as int).drop_last() =~= text@.subrange(
            pos as int,
            trimmed - 1,
        ));
        trimmed -= 1;
    }
    trimmed
}

/// Appends the part of `text` from `from` to `to` to `out`.
fn push_range(out: &mut Vec<char>, text: &Vec<char>, from: usize, to: usize)
    requires
        from <= to <= text.len(),
    ensures
        final(out)@ == old(out)@ + text@.subrange(from as int, to as int),
{
    let mut k: usize = from;
    while k < to
        invariant
            from <= k <= to <= text.len(),
            out@ == old(out)@ + text@.subrange(from as int, k as int),
        decreases to - k,
    {
        out.push(text[k]);
        assert(text@.subrange(from as int, k + 1) =~= text@.subrange(from as int, k as int).push(
            text[k as int],
        ));
        k += 1;
    }
}

/// Cuts a catalog text into its chunks.
///
/// Each chunk holds its lines from the `{` line to the `}` line, every one
/// followed by a line feed, line endings in the text being line feeds or
/// carriage returns with line feeds.
pub fn json_to_chunks(json: &str) -> (chunks: Vec<String>)
    ensures
        texts(chunks@) == json_chunks(json@),
{
    let text = chars_of(json);
    let mut chunks: Vec<String> = Vec::new();
    let mut chunk: Vec<char> = Vec::new();
    let mut inchunk: bool = false;
    let mut pos: usize = 0;
    assert(text@.take(0) =~= Seq::<char>::empty());
    assert(texts(chunks@) =~= Seq::<Seq<char>>::empty());
    while pos < text.len()
        invariant
            text@ == json@,
            pos <= text.len(),
            pos == 0 || pos == text.len() || text[pos - 1] == '\n',
            scan_lines(lines(text@.take(pos as int))) == (ChunkScan {
                chunks: texts(chunks@),
                inchunk,
                chunk: chunk@,
            }),
        decreases text.len() - pos,
    {
        let end = find_line_end(&text, pos);
        let terminated = end < text.len();
        let stop: usize = if terminated && end > pos && text[end - 1] == '\r' {
            end - 1
        } else {
            end
        };
        let next: usize = if terminated {
            end + 1
        } else {
            end
        };
        proof {
            lemma_next_line(text@, pos as int, end as int, stop as int);
            assert(lines(text@.take(next as int)).drop_last() =~= lines(text@.take(pos as int)));
        }
        let trimmed = find_trimmed_end(&text, pos, stop);
        let ghost core = text@.subrange(pos as int, trimmed as int);
        let single = trimmed == pos + 1;
        let opens = single && text[pos] == '{';
        let closes = single && text[pos] == '}';
        proof {
            if single {
                assert(core =~= seq![text[pos as int]]);
            }
            if core == seq!['{'] {
                assert(core.len() == 1 && core[0] == '{');
            }
            if core == seq!['}'] {
                assert(core.len() == 1 && core[0] == '}');
            }
        }
        if opens || inchunk {
            if opens {
                inchunk = true;
                chunk = Vec::new();
            }
            push_range(&mut chunk, &text, pos, stop);
            chunk.push('\n');
            if closes {
                inchunk = false;
                let ghost before = chunks@;
                let whole = string_from_chars(&chunk);
                chunks.push(whole);
                assert(texts(chunks@) =~= texts(before).push(chunk@));
            }
        }
        pos = next;
    }
    assert(text@.take(pos as int) =~= text@);
    chunks
}

/// What came of reading the chunks of a catalog.
#[derive(Debug)]
pub struct Loaded {
    /// the systems that were read, in the order of their chunks
    pub systems: Vec<LSys>,
    /// the numbers of the chunks that could not be read, counted from one
    pub failed: Vec<usize>,
}

/// The systems among `parsed`, in order.
pub open spec fn read_systems(parsed: Seq<Option<LSys>>) -> Seq<LSys> {
    parsed.filter_map(|p: Option<LSys>| p)
}

/// The numbers, counted from one, of the places of `parsed` that hold no
/// system.
pub open spec fn unread_chunks(parsed: Seq<Option<LSys>>) -> Seq<int>
    decreases parsed.len(),
{
    if parsed.len() == 0 {
        Seq::empty()
    } else if parsed.last() is None {
        unread_chunks(parsed.drop_last()).push(parsed.len() as int)
    } else {
        unread_chunks(parsed.drop_last())
    }
}

/// Gathers the systems of a catalog from what reading each chunk gave:
/// a system, or nothing where the chunk could not be read.
///
/// A chunk that could not be read is passed over and its number noted; the
/// others follow in order.
pub fn lsys_from_json_chunks(parsed: Vec<Option<LSys>>) -> (out: Loaded)
    ensures
        out.systems@ == read_systems(parsed@),
        out.failed@.map_values(|n: usize| n as int) == unread_chunks(parsed@),
        out.systems.len() + out.failed.len() == parsed.len(),
{
    let ghost all = parsed@;
    assert(all.len() == parsed.len());
    let mut systems: Vec<LSys> = Vec::new();
    let mut failed: Vec<usize> = Vec::new();
    let mut chunk_no: usize = 0;
    for p in it: parsed.into_iter()
        invariant
            it.seq() == all,
            all.len() <= usize::MAX,
            chunk_no == it.index(),
            systems@ == read_systems(all.take(it.index() as int)),
            failed@.map_values(|n: usize| n as int) == unread_chunks(all.take(it.index() as int)),
            systems.len() + failed.len() == chunk_no,
    {
        let ghost before = failed@;
        proof {
            let done = all.take(it.index() as int);
            let more = all.take(it.index() + 1);
            assert(more.drop_last() =~= done);
            assert(more.last() == p);
        }
        chunk_no += 1;
        match p {
            Some(lsys) => {
                systems.push(lsys);
            },
            None => {
                failed.push(chunk_no);
                assert(failed@.map_values(|n: usize| n as int) =~= before.map_values(
                    |n: usize| n as int,
                ).push(chunk_no as int));
            },
        }
    }
    assert(all.take(all.len() as int) =~= all);
    Loaded { systems, failed }
}

} // verus!
