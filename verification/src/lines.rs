//! Lines as a mathematical notion: how a byte stream splits at the delimiter,
//! and the single scan that moves one line out of a window of bytes.

use vstd::prelude::*;
use vstd::slice::slice_subrange;

verus! {

/// The byte that ends a line: ASCII line feed. It is the only line boundary.
pub const DELIMITER: u8 = 0x0A;

/// Length of the first line of `s`: the bytes up to and including the first
/// delimiter, or all of `s` when it holds no delimiter.
pub open spec fn line_len(s: Seq<u8>) -> nat
    decreases s.len(),
{
    if s.len() == 0 {
        0
    } else if s[0] == DELIMITER {
        1
    } else {
        1 + line_len(s.skip(1))
    }
}

/// The first line of `s`, its delimiter included if it has one.
pub open spec fn first_line(s: Seq<u8>) -> Seq<u8> {
    s.take(line_len(s) as int)
}

/// What is left of `s` once its first line is taken away.
pub open spec fn after_first_line(s: Seq<u8>) -> Seq<u8> {
    s.skip(line_len(s) as int)
}

/// All the lines of `s`, in order. An empty stream has no lines; a stream that
/// ends in a delimiter has no empty line after it.
pub open spec fn lines_of(s: Seq<u8>) -> Seq<Seq<u8>>
    decreases s.len(),
{
    if s.len() == 0 {
        Seq::empty()
    } else {
        proof {
            lemma_line_len(s);
        }
        seq![first_line(s)] + lines_of(after_first_line(s))
    }
}

/// `l` is a complete line: it ends with the delimiter and holds no other one.
pub open spec fn is_terminated_line(l: Seq<u8>) -> bool {
    &&& l.len() > 0
    &&& l.last() == DELIMITER
    &&& !l.drop_last().contains(DELIMITER)
}

/// `l` is a trailing fragment: not empty and without any delimiter.
pub open spec fn is_fragment(l: Seq<u8>) -> bool {
    &&& l.len() > 0
    &&& !l.contains(DELIMITER)
}

/// `lines` is what a stream can split into: complete lines, the last of which
/// may instead be a fragment without a delimiter.
pub open spec fn well_formed_lines(lines: Seq<Seq<u8>>) -> bool {
    &&& forall|i: int| 0 <= i < lines.len() - 1 ==> is_terminated_line(#[trigger] lines[i])
    &&& lines.len() > 0 ==> is_terminated_line(lines.last()) || is_fragment(lines.last())
}

/// The first line in terms of positions: nothing before its last byte is a
/// delimiter, its last byte is the first delimiter of `s` if `s` has one, and
/// it is all of `s` otherwise.
pub proof fn lemma_line_len(s: Seq<u8>)
    ensures
        line_len(s) <= s.len(),
        s.len() > 0 ==> line_len(s) > 0,
        forall|j: int| 0 <= j < line_len(s) - 1 ==> s[j] != DELIMITER,
        s.contains(DELIMITER) ==> s[line_len(s) - 1] == DELIMITER,
        !s.contains(DELIMITER) ==> line_len(s) == s.len(),
    decreases s.len(),
{
    if s.len() == 0 {
    } else if s[0] == DELIMITER {
    } else {
        let t = s.skip(1);
        lemma_line_len(t);
        assert forall|j: int| 0 <= j < line_len(s) - 1 implies s[j] != DELIMITER by {
            if j > 0 {
                assert(s[j] == t[j - 1]);
            }
        }
        if s.contains(DELIMITER) {
            let k = choose|k: int| 0 <= k < s.len() && s[k] == DELIMITER;
            assert(t[k - 1] == DELIMITER);
            assert(s[line_len(s) - 1] == t[line_len(t) - 1]);
        } else {
            assert forall|k: int| 0 <= k < t.len() implies t[k] != DELIMITER by {
                assert(s[k + 1] == t[k]);
            }
        }
    }
}

/// If the first delimiter of `s` stands at position `i`, the first line of `s`
/// is `i + 1` bytes long.
pub proof fn lemma_line_len_at(s: Seq<u8>, i: int)
    requires
        0 <= i < s.len(),
        s[i] == DELIMITER,
        forall|j: int| 0 <= j < i ==> s[j] != DELIMITER,
    ensures
        line_len(s) == i + 1,
{
    lemma_line_len(s);
    let n = line_len(s) as int;
    if n - 1 < i {
        assert(s[n - 1] == DELIMITER);
    } else if n - 1 > i {
        assert(s[i] != DELIMITER);
    }
}

/// A line that is split over two pieces of the stream is put together again:
/// if `a` holds a delimiter, the first line of `a + b` is that of `a` alone;
/// if it holds none, it is all of `a` followed by the first line of `b`.
pub proof fn lemma_first_line_of_concat(a: Seq<u8>, b: Seq<u8>)
    ensures
        a.contains(DELIMITER) ==> first_line(a + b) == first_line(a) && after_first_line(a + b)
            == after_first_line(a) + b,
        !a.contains(DELIMITER) ==> first_line(a + b) == a + first_line(b) && after_first_line(
            a + b,
        ) == after_first_line(b),
        !a.contains(DELIMITER) ==> line_len(a + b) == a.len() + line_len(b),
{
    lemma_line_len(a);
    lemma_line_len(b);
    let s = a + b;
    if a.contains(DELIMITER) {
        let i = line_len(a) - 1;
        assert(s[i] == DELIMITER);
        assert forall|j: int| 0 <= j < i implies s[j] != DELIMITER by {
            assert(s[j] == a[j]);
        }
        lemma_line_len_at(s, i);
        assert(first_line(s) =~= first_line(a));
        assert(after_first_line(s) =~= after_first_line(a) + b);
    } else if b.contains(DELIMITER) {
        let i = a.len() + line_len(b) - 1;
        assert(s[i] == b[line_len(b) - 1]);
        assert forall|j: int| 0 <= j < i implies s[j] != DELIMITER by {
            if j < a.len() {
                assert(s[j] == a[j]);
                assert(a.contains(a[j]));
            } else {
                assert(s[j] == b[j - a.len()]);
            }
        }
        lemma_line_len_at(s, i);
        assert(first_line(s) =~= a + first_line(b));
        assert(after_first_line(s) =~= after_first_line(b));
    } else {
        assert forall|j: int| 0 <= j < s.len() implies s[j] != DELIMITER by {
            if j < a.len() {
                assert(a.contains(a[j]));
            } else {
                assert(s[j] == b[j - a.len()]);
                assert(b.contains(b[j - a.len()]));
            }
        }
        lemma_line_len(s);
        assert(first_line(s) =~= a + first_line(b));
        assert(after_first_line(s) =~= after_first_line(b));
    }
}

/// Reading back what was written: when lines that a stream can split into
/// are written one after the other, the stream splits into exactly those
/// lines again, each with its delimiter, the last one as it was.
pub proof fn lemma_lines_of_joined(lines: Seq<Seq<u8>>)
    requires
        well_formed_lines(lines),
    ensures
        lines_of(lines.flatten()) == lines,
    decreases lines.len(),
{
    if lines.len() == 0 {
        assert(lines_of(lines.flatten()) =~= lines);
    } else {
        let first = lines.first();
        let rest = lines.drop_first();
        let tail = rest.flatten();
        let s = first + tail;
        assert(lines.flatten() == s);
        assert(well_formed_lines(rest)) by {
            assert forall|i: int| 0 <= i < rest.len() - 1 implies is_terminated_line(
                #[trigger] rest[i],
            ) by {
                assert(rest[i] == lines[i + 1]);
            }
            if rest.len() > 0 {
                assert(rest.last() == lines.last());
            }
        }
        lemma_lines_of_joined(rest);
        lemma_line_len(first);
        if is_terminated_line(first) {
            assert forall|j: int| 0 <= j < first.len() - 1 implies first[j] != DELIMITER by {
                assert(first.drop_last()[j] == first[j]);
            }
            lemma_line_len_at(first, first.len() - 1);
            lemma_first_line_of_concat(first, tail);
            assert(first_line(first) =~= first);
            assert(after_first_line(first) + tail =~= tail);
        } else {
            assert(rest.len() == 0);
            assert(s =~= first);
            assert(first_line(s) =~= first);
            assert(after_first_line(s) =~= tail);
        }
        assert(lines_of(s) =~= seq![first] + lines_of(tail));
        assert(seq![first] + rest =~= lines);
    }
}

/// Nothing is lost and nothing is added by splitting: the lines of a stream,
/// written one after the other, are the stream; each of them is complete but
/// for the last, which may lack its delimiter; and none of them is empty.
pub proof fn lemma_joined_lines_of(s: Seq<u8>)
    ensures
        lines_of(s).flatten() == s,
        well_formed_lines(lines_of(s)),
        forall|i: int| 0 <= i < lines_of(s).len() ==> (#[trigger] lines_of(s)[i]).len() > 0,
    decreases s.len(),
{
    if s.len() == 0 {
        assert(lines_of(s).flatten() =~= s);
    } else {
        lemma_line_len(s);
        let first = first_line(s);
        let rest = after_first_line(s);
        let lines = lines_of(s);
        lemma_joined_lines_of(rest);
        assert(lines == seq![first] + lines_of(rest));
        assert(lines.first() == first);
        assert(lines.drop_first() =~= lines_of(rest));
        assert(lines.flatten() =~= first + lines_of(rest).flatten());
        assert(first + rest =~= s);
        if s.contains(DELIMITER) {
            assert(first.last() == DELIMITER);
            assert forall|j: int| 0 <= j < first.drop_last().len() implies first.drop_last()[j]
                != DELIMITER by {
                assert(first.drop_last()[j] == s[j]);
            }
            assert(is_terminated_line(first));
        } else {
            assert(first =~= s);
            assert(is_fragment(first));
            assert(lines_of(rest).len() == 0);
        }
        assert forall|i: int| 0 <= i < lines.len() - 1 implies is_terminated_line(
            #[trigger] lines[i],
        ) by {
            if i > 0 {
                assert(lines[i] == lines_of(rest)[i - 1]);
            }
        }
        if lines_of(rest).len() > 0 {
            assert(lines.last() == lines_of(rest).last());
        }
        assert forall|i: int| 0 <= i < lines.len() implies (#[trigger] lines[i]).len() > 0 by {
            if i > 0 {
                assert(lines[i] == lines_of(rest)[i - 1]);
            }
        }
    }
}

/// The two ways in which a stream can end. One that ends in a delimiter has a
/// complete last line and no empty line after it. One that ends in another
/// byte has as its last line the fragment after the last delimiter, which is
/// not empty and holds no delimiter.
pub proof fn lemma_last_line(s: Seq<u8>)
    requires
        s.len() > 0,
    ensures
        lines_of(s).len() > 0,
        s.last() == DELIMITER ==> is_terminated_line(lines_of(s).last()),
        s.last() != DELIMITER ==> is_fragment(lines_of(s).last()),
    decreases s.len(),
{
    lemma_line_len(s);
    lemma_joined_lines_of(s);
    let first = first_line(s);
    let rest = after_first_line(s);
    let lines = lines_of(s);
    assert(lines == seq![first] + lines_of(rest));
    if rest.len() > 0 {
        lemma_last_line(rest);
        assert(rest.last() == s.last());
        assert(lines.last() == lines_of(rest).last());
    } else {
        assert(lines_of(rest).len() == 0);
        assert(lines.last() == first);
        assert(first =~= s);
        if s.last() != DELIMITER {
            if is_terminated_line(first) {
                assert(first.last() == s.last());
            }
        } else {
            assert(s.contains(DELIMITER));
            assert(!is_fragment(first));
        }
    }
}

/// Scans `window` once for the delimiter and appends the first line of the
/// window to `line`. Returns how many bytes of the window went into the line,
/// and whether the line is now complete, that is, ends with the delimiter.
pub fn take_line(window: &[u8], line: &mut Vec<u8>) -> (r: (usize, bool))
    ensures
        final(line)@ == old(line)@ + first_line(window@),
        r.0 == line_len(window@),
        r.1 == window@.contains(DELIMITER),
{
    let ghost before = line@;
    let total: usize = window.len();
    match memchr::memchr(DELIMITER, window) {
        Some(i) => {
            proof {
                lemma_line_len_at(window@, i as int);
            }
            line.extend_from_slice(slice_subrange(window, 0, i + 1));
            assert(line@ =~= before + first_line(window@));
            (i + 1, true)
        },
        None => {
            proof {
                lemma_line_len(window@);
            }
            line.extend_from_slice(window);
            assert(line@ =~= before + first_line(window@));
            (total, false)
        },
    }
}

} // verus!
