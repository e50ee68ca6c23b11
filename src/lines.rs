use vstd::prelude::*;
use vstd::string::StrSliceExecFns;
use crate::stats::FileStats;

verus! {

/// The text cut at every `'\n'`, terminators removed. There is always at
/// least one piece: the (possibly empty) text after the last terminator.
pub open spec fn pieces(s: Seq<char>) -> Seq<Seq<char>>
    decreases s.len(),
{
    if s.len() == 0 {
        seq![Seq::<char>::empty()]
    } else {
        let p = pieces(s.drop_last());
        if s.last() == '\n' {
            p.push(Seq::<char>::empty())
        } else {
            p.update(p.len() - 1, p.last().push(s.last()))
        }
    }
}

/// A line that was ended by `"\r\n"` loses its `'\r'`.
pub open spec fn strip_cr(p: Seq<char>) -> Seq<char> {
    if p.len() > 0 && p.last() == '\r' {
        p.drop_last()
    } else {
        p
    }
}

/// The lines of a text: each line ends at `'\n'` (a `"\r\n"` ending leaves no
/// `'\r'` behind); a final line without a terminator still counts, and nothing
/// after the last terminator is no line.
pub open spec fn lines_of(s: Seq<char>) -> Seq<Seq<char>> {
    let p = pieces(s);
    let ended = p.drop_last().map_values(|x: Seq<char>| strip_cr(x));
    if p.last().len() == 0 {
        ended
    } else {
        ended.push(p.last())
    }
}

/// How many of the given lines are empty.
pub open spec fn count_empty(ls: Seq<Seq<char>>) -> nat
    decreases ls.len(),
{
    if ls.len() == 0 {
        0
    } else {
        count_empty(ls.drop_last()) + if ls.last().len() == 0 {
            1nat
        } else {
            0nat
        }
    }
}

/// Number of lines of a text.
pub open spec fn line_count(s: Seq<char>) -> nat {
    lines_of(s).len()
}

/// Number of empty lines of a text.
pub open spec fn blank_count(s: Seq<char>) -> nat {
    count_empty(lines_of(s))
}

proof fn lemma_pieces_nonempty(s: Seq<char>)
    ensures
        pieces(s).len() >= 1,
    decreases s.len(),
{
    if s.len() > 0 {
        lemma_pieces_nonempty(s.drop_last());
    }
}

proof fn lemma_count_empty_bound(ls: Seq<Seq<char>>)
    ensures
        count_empty(ls) <= ls.len(),
    decreases ls.len(),
{
    if ls.len() > 0 {
        lemma_count_empty_bound(ls.drop_last());
    }
}

proof fn lemma_count_empty_push(ls: Seq<Seq<char>>, l: Seq<char>)
    ensures
        count_empty(ls.push(l)) == count_empty(ls) + if l.len() == 0 {
            1nat
        } else {
            0nat
        },
{
    assert(ls.push(l).drop_last() =~= ls);
}

/// Counts the lines of a Markdown (or any plain-text) file: an empty line is
/// blank, any other line is code, and no line is a comment.
pub fn process_markdown_file(content: &str) -> (r: FileStats)
    ensures
        r.lines == line_count(content@),
        r.blanks == blank_count(content@),
        r.code == line_count(content@) - blank_count(content@),
        r.comments == 0,
        r.wf(),
{
    let n: usize = content.unicode_len();
    let mut lines: u64 = 0;
    let mut blanks: u64 = 0;
    // whether the line being read is still empty, or is exactly "\r"
    let mut cur_empty: bool = true;
    let mut cur_cr: bool = false;
    proof {
        lemma_pieces_nonempty(content@);
        assert(content@.take(0) =~= Seq::<char>::empty());
    }
    let ghost s = content@;
    for ch in it: content.chars()
        invariant
            n == s.len(),
            s == content@,
            it.seq() == s,
            ({
                let p = pieces(s.take(it.index() as int));
                let ended = p.drop_last().map_values(|x: Seq<char>| strip_cr(x));
                &&& p.len() >= 1
                &&& lines == ended.len()
                &&& blanks == count_empty(ended)
                &&& cur_empty == (p.last().len() == 0)
                &&& cur_cr == (p.last() == seq!['\r'])
            }),
            lines + (if cur_empty { 0int } else { 1int }) <= it.index(),
    {
        let ghost i = it.index() as int;
        let ghost pre = s.take(i);
        let ghost p = pieces(pre);
        let ghost ended = p.drop_last().map_values(|x: Seq<char>| strip_cr(x));
        proof {
            assert(s.take(i + 1).drop_last() =~= pre);
            assert(s.take(i + 1).last() == ch);
            lemma_count_empty_bound(ended);
        }
        if ch == '\n' {
            proof {
                let q = pieces(s.take(i + 1));
                assert(q == p.push(Seq::<char>::empty()));
                let ended2 = q.drop_last().map_values(|x: Seq<char>| strip_cr(x));
                assert(ended2 =~= ended.push(strip_cr(p.last())));
                lemma_count_empty_push(ended, strip_cr(p.last()));
                if !cur_empty && !cur_cr {
                    if p.last().len() == 1 && p.last().last() == '\r' {
                        assert(p.last() =~= seq!['\r']);
                    }
                    assert(strip_cr(p.last()).len() > 0);
                }
                if cur_cr {
                    assert(strip_cr(p.last()) =~= Seq::<char>::empty());
                }
            }
            if cur_empty || cur_cr {
                blanks = blanks + 1;
            }
            lines = lines + 1;
            cur_empty = true;
            cur_cr = false;
        } else {
            proof {
                let q = pieces(s.take(i + 1));
                let last2 = p.last().push(ch);
                assert(q == p.update(p.len() - 1, last2));
                assert(q.drop_last() =~= p.drop_last());
                assert(q.last() == last2);
                if cur_empty && ch == '\r' {
                    assert(last2 =~= seq!['\r']);
                }
                assert(last2.last() == ch);
                assert(seq!['\r'].last() == '\r');
                if !cur_empty {
                    assert(last2.len() >= 2);
                }
            }
            cur_cr = cur_empty && ch == '\r';
            cur_empty = false;
        }
    }
    proof {
        assert(s.take(n as int) =~= s);
        let p = pieces(s);
        let ended = p.drop_last().map_values(|x: Seq<char>| strip_cr(x));
        lemma_count_empty_bound(ended);
        if !cur_empty {
            lemma_count_empty_push(ended, p.last());
        }
    }
    if !cur_empty {
        lines = lines + 1;
    }
    FileStats { lines, code: lines - blanks, comments: 0, blanks }
}

/// A way of counting the lines of a file, one per kind of text.
#[derive(Clone, Copy, Debug, PartialEq, Eq, Structural)]
pub enum LineCounter {
    /// Plain text and Markdown: empty lines are blank, all others are code.
    PlainText,
}

impl LineCounter {
    /// The breakdown this counter gives for a text.
    pub open spec fn counted(self, s: Seq<char>) -> FileStats {
        match self {
            LineCounter::PlainText => FileStats {
                lines: line_count(s) as u64,
                code: (line_count(s) - blank_count(s)) as u64,
                comments: 0,
                blanks: blank_count(s) as u64,
            },
        }
    }

    /// Counts the lines of `content`.
    pub fn count(&self, content: &str) -> (r: FileStats)
        ensures
            r == self.counted(content@),
            r.wf(),
    {
        match self {
            LineCounter::PlainText => process_markdown_file(content),
        }
    }
}

/// Every line of a text is either blank or code: the two counts add up to the
/// number of lines.
pub proof fn law_counts_add_up(s: Seq<char>)
    ensures
        blank_count(s) <= line_count(s),
        line_count(s) == (line_count(s) - blank_count(s)) + blank_count(s),
{
    lemma_count_empty_bound(lines_of(s));
}

/// A text in which every line holds something has no blank line: all its
/// lines are code.
pub proof fn law_no_empty_line_no_blank(s: Seq<char>)
    requires
        forall|i: int| 0 <= i < lines_of(s).len() ==> #[trigger] lines_of(s)[i].len() > 0,
    ensures
        blank_count(s) == 0,
        line_count(s) - blank_count(s) == line_count(s),
{
    lemma_count_empty_none(lines_of(s));
}

/// A text made only of empty lines has as many blank lines as lines, and no
/// code.
pub proof fn law_empty_lines_all_blank(s: Seq<char>)
    requires
        forall|i: int| 0 <= i < lines_of(s).len() ==> #[trigger] lines_of(s)[i].len() == 0,
    ensures
        blank_count(s) == line_count(s),
        line_count(s) - blank_count(s) == 0,
{
    lemma_count_empty_all(lines_of(s));
}

/// A text of `n` line feeds and nothing else.
pub open spec fn line_feeds(n: nat) -> Seq<char> {
    Seq::new(n, |i: int| '\n')
}

/// `n` line feeds in a row make `n` empty lines.
pub proof fn law_line_feeds_are_empty_lines(n: nat)
    ensures
        line_count(line_feeds(n)) == n,
        blank_count(line_feeds(n)) == n,
        forall|i: int|
            0 <= i < n ==> #[trigger] lines_of(line_feeds(n))[i].len() == 0,
{
    lemma_pieces_line_feeds(n);
    let s = line_feeds(n);
    let p = pieces(s);
    assert(p.last().len() == 0);
    let ls = lines_of(s);
    assert(ls.len() == n);
    assert forall|i: int| 0 <= i < n implies #[trigger] ls[i].len() == 0 by {
        assert(ls[i] == strip_cr(p[i]));
    }
    lemma_count_empty_all(ls);
}

proof fn lemma_pieces_line_feeds(n: nat)
    ensures
        pieces(line_feeds(n)).len() == n + 1,
        forall|i: int|
            0 <= i <= n ==> #[trigger] pieces(line_feeds(n))[i].len() == 0,
    decreases n,
{
    let s = line_feeds(n);
    if n > 0 {
        lemma_pieces_line_feeds((n - 1) as nat);
        assert(s.drop_last() =~= line_feeds((n - 1) as nat));
    }
}

proof fn lemma_count_empty_none(ls: Seq<Seq<char>>)
    requires
        forall|i: int| 0 <= i < ls.len() ==> #[trigger] ls[i].len() > 0,
    ensures
        count_empty(ls) == 0,
    decreases ls.len(),
{
    if ls.len() > 0 {
        lemma_count_empty_none(ls.drop_last());
    }
}

proof fn lemma_count_empty_all(ls: Seq<Seq<char>>)
    requires
        forall|i: int| 0 <= i < ls.len() ==> #[trigger] ls[i].len() == 0,
    ensures
        count_empty(ls) == ls.len(),
    decreases ls.len(),
{
    if ls.len() > 0 {
        lemma_count_empty_all(ls.drop_last());
    }
}

} // verus!
